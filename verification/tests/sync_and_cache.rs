use modkist::mod_api_cache::{ApiCache, CACHE_TTL_MS};
use modkist::modio_client::timestamp_to_iso;
use modkist::subscription_sync_settings::{clear_failure, record_failure, FailedSyncModRecord};

#[test]
fn recorded_failure_is_listed_and_cleared() {
    let records = record_failure(vec![], 7, "install", "download failed");
    assert!(records.iter().any(|r| r.mod_id == 7));
    let records = record_failure(records, 7, "install", "again");
    assert_eq!(records.iter().filter(|r| r.mod_id == 7).count(), 1);
    let (records, removed) = clear_failure(records, 7);
    assert!(removed);
    assert!(!records.iter().any(|r: &FailedSyncModRecord| r.mod_id == 7));
    let (_, removed) = clear_failure(records, 7);
    assert!(!removed);
}

#[test]
fn cache_entries_expire_after_five_minutes() {
    let mut cache = ApiCache::new();
    cache.store_latest_file_id(1, 42, 1_000);
    assert_eq!(cache.get_latest_file_id(1, 1_000), Some(42));
    assert_eq!(cache.get_latest_file_id(1, 1_000 + CACHE_TTL_MS - 1), Some(42));
    assert_eq!(cache.get_latest_file_id(1, 1_000 + CACHE_TTL_MS), None);
    assert_eq!(cache.get_latest_file_id(2, 1_000), None);
}

#[test]
fn timestamps_format_as_rfc3339_utc() {
    assert_eq!(timestamp_to_iso(1_700_000_000), "2023-11-14T22:13:20Z");
    assert_eq!(timestamp_to_iso(0), "");
    assert_eq!(timestamp_to_iso(-5), "");
}

#[test]
fn persisted_cache_is_reused_for_a_day() {
    use_it(0, 100, false);
    use_it(1_000, 1_000 + 86_400, true);
    use_it(1_000, 1_000 + 86_401, false);
    use_it(5_000, 10, true);
}

fn use_it(saved_at: u64, now: u64, expected: bool) {
    assert_eq!(modkist::modio_client::persisted_cache_usable(saved_at, now), expected);
}
