use modkist::launch_options::parse_launch_options;

#[test]
fn parses_profile_and_launchgame_flags() {
    let options = parse_launch_options(vec![
        "-profile".to_string(),
        "Survival".to_string(),
        "-launchgame".to_string(),
    ]);
    assert_eq!(options.profile_name.as_deref(), Some("Survival"));
    assert!(options.launch_game);
}

#[test]
fn parses_long_form_flags() {
    let options = parse_launch_options(vec![
        "--profile".to_string(),
        "My Pack".to_string(),
        "--launchgame".to_string(),
    ]);
    assert_eq!(options.profile_name.as_deref(), Some("My Pack"));
    assert!(options.launch_game);
}

#[test]
fn parses_launchgame_only() {
    let options = parse_launch_options(vec!["-launchgame".to_string()]);
    assert!(options.profile_name.is_none());
    assert!(options.launch_game);
}

#[test]
fn ignores_unknown_flags() {
    let options = parse_launch_options(vec![
        "--verbose".to_string(),
        "-profile".to_string(),
        "Vanilla".to_string(),
    ]);
    assert_eq!(options.profile_name.as_deref(), Some("Vanilla"));
    assert!(!options.launch_game);
}

#[test]
fn trims_profile_name() {
    let options = parse_launch_options(vec!["-profile".to_string(), "  Survival  ".to_string()]);
    assert_eq!(options.profile_name.as_deref(), Some("Survival"));
}
