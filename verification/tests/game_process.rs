use modkist::game_process::process_name_is_game;

#[test]
fn matches_process_names() {
    assert!(process_name_is_game("zeepkist"));
    assert!(process_name_is_game("Zeepkist.exe"));
    assert!(process_name_is_game("C:\\Games\\Zeepkist\\zeepkist.exe"));
    assert!(process_name_is_game("/path/to/Zeepkist/zeepkist.exe"));
    assert!(!process_name_is_game("wine64-preloader"));
    assert!(!process_name_is_game("not-zeepkist.exe"));
}
