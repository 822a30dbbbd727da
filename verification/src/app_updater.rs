//! Which updater manifest a build checks.
use vstd::prelude::*;

use crate::text::{chars_of, has_char, own};

verus! {

pub const UPDATER_STABLE_MANIFEST_URL: &'static str =
    "https://github.com/Thundernerd/ModkistMKII/releases/download/updater/latest.json";

pub const UPDATER_PRERELEASE_MANIFEST_URL: &'static str =
    "https://github.com/Thundernerd/ModkistMKII/releases/download/updater/latest-prerelease.json";

/// Versions with a pre-release part (a `-`) follow the pre-release manifest,
/// all others the stable one.
pub fn updater_endpoint_for_version(version: &str) -> (r: &'static str)
    ensures
        version@.contains('-') ==> r@ == UPDATER_PRERELEASE_MANIFEST_URL@,
        !version@.contains('-') ==> r@ == UPDATER_STABLE_MANIFEST_URL@,
{
    let v = chars_of(version);
    if has_char(&v, '-') {
        UPDATER_PRERELEASE_MANIFEST_URL
    } else {
        UPDATER_STABLE_MANIFEST_URL
    }
}

/// The outcome of an update check: `skipped`, `upToDate` or `installed`.
pub struct AppUpdateCheckResult {
    pub status: String,
    pub version: Option<String>,
}

/// The result reported when no update check runs.
pub fn skipped_result() -> (r: AppUpdateCheckResult)
    ensures
        r.status@ == "skipped"@,
        r.version is None,
{
    AppUpdateCheckResult { status: own("skipped"), version: None }
}

} // verus!
