use modkist::app_settings::settings_from_store;
use modkist::game_launch::{
    crossover_launch_args, launch_precheck, linux_steam_candidates, missing_executable_error,
    steam_launch_args, wine_launch_method, WineLaunch,
};
use modkist::logging::{log_filter, report_level_for, report_target_tag, LogLevel, ReportLevel};
use modkist::sentry_init::{configured_dsn, environment_name, is_enabled};

#[test]
fn settings_defaults() {
    let s = settings_from_store(None, None);
    assert!(s.auto_update_mods);
    assert!(!s.skip_sign_in);
    let s = settings_from_store(Some(false), Some(true));
    assert!(!s.auto_update_mods);
    assert!(s.skip_sign_in);
}

#[test]
fn dsn_must_not_be_blank() {
    assert_eq!(configured_dsn(&Some("  https://k@s.io/1 ".to_string())), Some("https://k@s.io/1".to_string()));
    assert_eq!(configured_dsn(&Some("   ".to_string())), None);
    assert_eq!(configured_dsn(&None), None);
    assert!(is_enabled(&configured_dsn(&Some("x".to_string()))));
    assert!(!is_enabled(&configured_dsn(&Some("".to_string()))));
    assert_eq!(environment_name(true), "development");
    assert_eq!(environment_name(false), "production");
}

#[test]
fn only_errors_and_warnings_are_reported() {
    assert_eq!(report_level_for(LogLevel::Error), Some(ReportLevel::Error));
    assert_eq!(report_level_for(LogLevel::Warn), Some(ReportLevel::Warning));
    assert_eq!(report_level_for(LogLevel::Info), None);
    assert_eq!(report_target_tag("modkistmkii_lib::mod_install"), Some("mod_install".to_string()));
    assert_eq!(report_target_tag("tauri::app"), None);
    assert_eq!(log_filter(&None), "info,modkistmkii_lib=info");
    assert_eq!(log_filter(&Some("debug".to_string())), "debug");
}

#[test]
fn launch_decisions() {
    assert_eq!(launch_precheck(true), Err("Zeepkist is already running.".to_string()));
    assert_eq!(launch_precheck(false), Ok(()));
    assert_eq!(steam_launch_args(), vec!["-applaunch".to_string(), "1440670".to_string()]);
    assert_eq!(linux_steam_candidates("/home/u")[0], "/home/u/.local/share/Steam/ubuntu12_32/steam");
    assert_eq!(missing_executable_error("/g"), "Could not find zeepkist.exe in /g");
    assert!(matches!(wine_launch_method(&Some("Zeepkist".to_string()), true), WineLaunch::Bottle(b) if b == "Zeepkist"));
    assert!(matches!(wine_launch_method(&Some("Steam app 1440670".to_string()), true), WineLaunch::Prefix));
    assert!(matches!(wine_launch_method(&Some("Zeepkist".to_string()), false), WineLaunch::Prefix));
    assert_eq!(crossover_launch_args("B")[3], "zeepkist.exe");
}

#[test]
fn non_pe_bytes_have_no_version() {
    assert_eq!(modkist::bepinex::read_pe_version_bytes(b"not a dll"), None);
    assert_eq!(modkist::bepinex::read_pe_version_bytes(&[]), None);
}

#[test]
fn bepinex_version_is_read_from_its_core_dlls() {
    assert_eq!(
        modkist::bepinex::version_probe_dlls(),
        vec!["BepInEx/core/BepInEx.dll".to_string(), "BepInEx/core/BepInEx.Preloader.dll".to_string()]
    );
}

#[test]
fn bytes_without_a_valid_pe_header_have_no_version() {
    assert_eq!(modkist::bepinex::read_pe_version_bytes(&[0u8; 64]), None);
    let mut header = vec![0u8; 300];
    header[0] = b'M';
    header[1] = b'Z';
    assert_eq!(modkist::bepinex::read_pe_version_bytes(&header), None);
}

#[test]
fn a_built_in_dsn_comes_before_the_runtime_one() {
    use_dsn(Some(" https://k@o.ingest/1 "), None, Some("https://k@o.ingest/1"));
    use_dsn(Some("  "), Some("https://r@o/2"), Some("https://r@o/2"));
    use_dsn(None, None, None);
}

fn use_dsn(baked: Option<&str>, runtime: Option<&str>, expected: Option<&str>) {
    let got = modkist::sentry_init::sentry_dsn(baked.map(str::to_string), runtime.map(str::to_string));
    assert_eq!(got.as_deref(), expected);
}

#[test]
fn reporting_is_on_only_with_a_non_blank_dsn() {
    let on = modkist::sentry_init::sentry_dsn(Some("https://k@o/1".to_string()), None);
    assert!(is_enabled(&on));
    let off = modkist::sentry_init::sentry_dsn(None, Some("   ".to_string()));
    assert!(!is_enabled(&off));
    let runtime = modkist::sentry_init::sentry_dsn(None, Some("https://r@o/2".to_string()));
    assert!(is_enabled(&runtime));
}
