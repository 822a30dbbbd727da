//! Verified core of a desktop mod manager for Zeepkist: install folder naming,
//! mod.io query building and error classification, Wine registry editing,
//! sideload classification, profile bookkeeping and subscription-sync records.
use vstd::prelude::*;

pub mod text;
pub mod number;
pub mod mod_folder;
pub mod mod_download;
pub mod app_updater;
pub mod launch_options;
pub mod game_process;
pub mod modio_env;
pub mod fs_move;
pub mod game_launch;
pub mod game_path;
pub mod ids;
pub mod modio_api;
pub mod modio_client;
pub mod subscription_sync_settings;
pub mod paths;
pub mod mod_install;
pub mod wine_prefix;
pub mod mod_api_cache;
pub mod profiles;
pub mod sideload;
pub mod game_detect;
pub mod gamehub;
pub mod bepinex;
pub mod zip_extract;
pub mod app_settings;
pub mod auth;
pub mod sentry_init;
pub mod logging;
pub mod user_reg_proofs;
pub mod prefix_search;
pub mod version_resource;

verus! {

} // verus!
