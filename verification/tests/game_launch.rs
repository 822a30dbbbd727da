use modkist::game_launch::STEAM_APP_ID;

#[test]
fn steam_app_id_is_zeepkist() {
    assert_eq!(STEAM_APP_ID, "1440670");
}
