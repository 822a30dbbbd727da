//! Application settings kept in the settings store, with their defaults.
use vstd::prelude::*;

verus! {

pub const SETTINGS_STORE_PATH: &'static str = "modkist-settings.json";

pub const AUTO_UPDATE_MODS_KEY: &'static str = "autoUpdateMods";

pub const SKIP_SIGN_IN_KEY: &'static str = "skipSignIn";

/// The settings the front end shows.
#[derive(Clone, Copy, Debug, PartialEq, Eq, Structural)]
pub struct AppSettings {
    pub auto_update_mods: bool,
    pub skip_sign_in: bool,
}

/// Mods update themselves unless the store holds `false`: a missing or
/// non-boolean entry means on.
pub fn auto_update_mods_from(stored: Option<bool>) -> (r: bool)
    ensures
        r == match stored {
            Some(b) => b,
            None => true,
        },
{
    match stored {
        Some(b) => b,
        None => true,
    }
}

/// The sign-in prompt is skipped only when the store holds `true`.
pub fn skip_sign_in_from(stored: Option<bool>) -> (r: bool)
    ensures
        r == (stored == Some(true)),
{
    match stored {
        Some(b) => b,
        None => false,
    }
}

/// The settings as the store's two boolean entries give them.
pub fn settings_from_store(auto_update: Option<bool>, skip_sign_in: Option<bool>) -> (r: AppSettings)
    ensures
        r.auto_update_mods == (auto_update != Some(false)),
        r.skip_sign_in == (skip_sign_in == Some(true)),
{
    AppSettings {
        auto_update_mods: auto_update_mods_from(auto_update),
        skip_sign_in: skip_sign_in_from(skip_sign_in),
    }
}

} // verus!
