use modkist::game_launch::{launch_methods, LaunchMethod};
use modkist::prefix_search::Platform;
use modkist::wine_prefix::{
    choose_wine_binary, wine_reg_add_args, wine_reg_failure, wine_reg_winhttp_keys, CROSSOVER_WINE,
};

#[test]
fn launch_methods_fall_back_per_platform() {
    assert_eq!(launch_methods(Platform::Windows), vec![LaunchMethod::Steam, LaunchMethod::DirectExe]);
    assert_eq!(launch_methods(Platform::Linux), vec![LaunchMethod::Steam, LaunchMethod::Wine]);
    assert_eq!(launch_methods(Platform::MacOs), vec![LaunchMethod::Wine]);
    assert!(launch_methods(Platform::Other).is_empty());
}

#[test]
fn wine_reg_sets_both_winhttp_overrides() {
    assert_eq!(wine_reg_winhttp_keys(), vec!["winhttp".to_string(), "*winhttp".to_string()]);
    assert_eq!(
        wine_reg_add_args("*winhttp"),
        vec![
            "reg", "add", r"HKCU\Software\Wine\DllOverrides", "/v", "*winhttp", "/t", "REG_SZ", "/d",
            "native,builtin", "/f",
        ]
    );
    assert_eq!(
        wine_reg_failure("winhttp", "out", "err"),
        "wine reg add for winhttp failed: out err"
    );
}

#[test]
fn crossover_wine_is_preferred_on_macos() {
    assert_eq!(choose_wine_binary(Platform::MacOs, true, true).as_deref(), Some(CROSSOVER_WINE));
    assert_eq!(choose_wine_binary(Platform::MacOs, false, true).as_deref(), Some("wine"));
    assert_eq!(choose_wine_binary(Platform::Linux, true, true).as_deref(), Some("wine"));
    assert_eq!(choose_wine_binary(Platform::Linux, true, false), None);
}
