use modkist::mod_download::with_api_key;

#[test]
fn appends_api_key_query_param() {
    assert_eq!(
        with_api_key("https://g-1.modapi.io/v1/games/1/mods/2/files/3/download", "abc"),
        "https://g-1.modapi.io/v1/games/1/mods/2/files/3/download?api_key=abc"
    );
    assert_eq!(
        with_api_key("https://example.com/file?foo=bar", "abc"),
        "https://example.com/file?foo=bar&api_key=abc"
    );
}
