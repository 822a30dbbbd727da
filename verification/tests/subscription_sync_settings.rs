use modkist::subscription_sync_settings::{
    build_failed_sync_mod_list, count_dependency_failures, merge_dependency_failure_details,
    refine_sync_failure, FailedSyncModRecord,
};

#[test]
fn list_only_includes_recorded_failures() {
    let records = vec![
        FailedSyncModRecord {
            mod_id: 101,
            error_type: "install".to_string(),
            error_detail: Some("download failed".to_string()),
        },
        FailedSyncModRecord { mod_id: 202, error_type: "auth".to_string(), error_detail: None },
    ];
    let list = build_failed_sync_mod_list(&records, &vec![202, 303]);
    assert_eq!(list.mods.len(), 2);
    assert_eq!(list.mods[0].mod_id, 101);
    assert_eq!(list.mods[0].error_type, "install");
    assert!(!list.mods[0].ignored);
    assert_eq!(list.mods[1].mod_id, 202);
    assert_eq!(list.mods[1].error_type, "auth");
    assert!(list.mods[1].ignored);
}

#[test]
fn list_ignores_orphaned_ignore_entries() {
    let list = build_failed_sync_mod_list(&vec![], &vec![404]);
    assert!(list.mods.is_empty());
}

#[test]
fn count_dependency_sync_failures_only_counts_dependency_type() {
    let records = vec![
        FailedSyncModRecord { mod_id: 101, error_type: "dependency".to_string(), error_detail: None },
        FailedSyncModRecord { mod_id: 202, error_type: "install".to_string(), error_detail: None },
        FailedSyncModRecord { mod_id: 303, error_type: "dependency".to_string(), error_detail: None },
    ];
    let count = count_dependency_failures(&records);
    assert_eq!(count, 2);
}

#[test]
fn refine_sync_failure_detects_rate_limit() {
    let (error_type, _) = refine_sync_failure("install", "OAuth rate limit reached");
    assert_eq!(error_type, "rate_limit");
}

#[test]
fn refine_sync_failure_detects_auth_errors() {
    let (error_type, _) = refine_sync_failure("install_state", "The mod ID could not be found.");
    assert_eq!(error_type, "auth");
}

#[test]
fn refine_sync_failure_maps_install_order_to_dependency() {
    let (error_type, detail) = refine_sync_failure("install_order", "Dependency graph error");
    assert_eq!(error_type, "dependency");
    assert_eq!(detail.as_deref(), Some("Dependency graph error"));
}

#[test]
fn refine_sync_failure_maps_dependency_auth_to_dependency_detail() {
    let (error_type, detail) = refine_sync_failure(
        "install_order",
        "The mod ID could not be found. Sign in to mod.io to access private mods.",
    );
    assert_eq!(error_type, "dependency");
    assert_eq!(
        detail.as_deref(),
        Some("A required dependency is private or could not be loaded on mod.io.")
    );
}

#[test]
fn merge_dependency_failure_details_accumulates_mod_ids() {
    let (error_type, detail) = merge_dependency_failure_details(
        Some("Required dependencies could not be installed (mods 3108325)."),
        "dependency",
        "Required dependency (mod 2518400): download failed",
    );
    assert_eq!(error_type, "dependency");
    assert_eq!(
        detail.as_deref(),
        Some("Required dependencies could not be installed (mods 2518400, 3108325).")
    );
}
