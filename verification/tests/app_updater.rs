use modkist::app_updater::{
    updater_endpoint_for_version, UPDATER_PRERELEASE_MANIFEST_URL, UPDATER_STABLE_MANIFEST_URL,
};

#[test]
fn stable_versions_use_stable_manifest() {
    assert_eq!(updater_endpoint_for_version("1.0.0"), UPDATER_STABLE_MANIFEST_URL);
}

#[test]
fn prerelease_versions_use_prerelease_manifest() {
    assert_eq!(updater_endpoint_for_version("1.0.0-rc.9"), UPDATER_PRERELEASE_MANIFEST_URL);
    assert_eq!(updater_endpoint_for_version("1.2.3-beta.2"), UPDATER_PRERELEASE_MANIFEST_URL);
    assert_eq!(updater_endpoint_for_version("1.2.3-alpha.1"), UPDATER_PRERELEASE_MANIFEST_URL);
}
