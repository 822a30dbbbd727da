use modkist::zip_extract::{plan_downloaded_install, DownloadInstall};
use modkist::mod_download::{check_download_response, with_api_key, EMPTY_RESPONSE_ERROR};
use modkist::zip_extract::{
    looks_like_zip, safe_join, sanitize_filename, validate_download_payload, zip_entry_target,
    EMPTY_DOWNLOAD_ERROR, HTML_DOWNLOAD_ERROR,
};

#[test]
fn api_key_is_added_once() {
    let once = with_api_key("https://example.com/file", "k");
    assert_eq!(once, "https://example.com/file?api_key=k");
    assert_eq!(with_api_key(&once, "k"), once);
}

#[test]
fn safe_join_refuses_parent_and_absolute_entries() {
    assert_eq!(safe_join("/game", "../evil.dll"), Err("Unsafe zip entry path: ../evil.dll".to_string()));
    assert_eq!(safe_join("/game", "a/../../b"), Err("Unsafe zip entry path: a/../../b".to_string()));
    assert_eq!(safe_join("/game", "/etc/passwd"), Err("Absolute zip entry path: /etc/passwd".to_string()));
    assert_eq!(safe_join("/game", "plugins/mod.dll"), Ok("/game/plugins/mod.dll".to_string()));
}

#[test]
fn sanitized_file_names_are_single_components() {
    assert_eq!(sanitize_filename("dir/sub/mod.zip"), "mod.zip");
    assert_eq!(sanitize_filename("mod.dll"), "mod.dll");
    assert_eq!(sanitize_filename(""), "modfile");
    assert_eq!(sanitize_filename("dir/.."), "modfile");
    assert_eq!(sanitize_filename("dir/mod.zip/."), "mod.zip");
    assert_eq!(sanitize_filename("/"), "modfile");
}

#[test]
fn zip_header_needs_two_bytes_of_pk() {
    assert!(looks_like_zip(&[b'P', b'K', 3, 4], 4));
    assert!(!looks_like_zip(&[b'P', b'K', 3, 4], 1));
    assert!(!looks_like_zip(&[b'M', b'Z', 0, 0], 4));
}

#[test]
fn payload_validation_errors() {
    assert_eq!(validate_download_payload(&[]), Err(EMPTY_DOWNLOAD_ERROR.to_string()));
    assert_eq!(validate_download_payload(b"<html>"), Err(HTML_DOWNLOAD_ERROR.to_string()));
    assert_eq!(
        validate_download_payload(br#"{"error":"unauthorized"}"#),
        Err("Download failed: server returned an error instead of a mod file. {\"error\":\"unauthorized\"}".to_string())
    );
    assert_eq!(validate_download_payload(b"PK\x03\x04"), Ok(()));
}

#[test]
fn payload_preview_replaces_invalid_utf8() {
    let err = validate_download_payload(&[b'[', 0xff, b']']).unwrap_err();
    assert!(err.ends_with("[\u{fffd}]"));
}

#[test]
fn payload_preview_is_cut_at_300_bytes() {
    let mut body = vec![b'['];
    body.extend(std::iter::repeat(b'x').take(400));
    let err = validate_download_payload(&body).unwrap_err();
    let prefix = "Download failed: server returned an error instead of a mod file. ";
    assert_eq!(err.len(), prefix.len() + 300);
}

#[test]
fn zip_entries_map_to_targets() {
    assert_eq!(zip_entry_target("/d", "Plugins/"), Ok(("/d/Plugins".to_string(), true)));
    assert_eq!(zip_entry_target("/d", "Plugins/a.dll"), Ok(("/d/Plugins/a.dll".to_string(), false)));
    assert!(zip_entry_target("/d", "../x").is_err());
}

#[test]
fn download_response_checks() {
    assert_eq!(
        check_download_response(false, "404 Not Found", b"missing", None),
        Err("Mod download failed with status 404 Not Found. missing".to_string())
    );
    assert_eq!(
        check_download_response(true, "200 OK", b"", None),
        Err(EMPTY_RESPONSE_ERROR.to_string())
    );
    assert_eq!(
        check_download_response(true, "200 OK", b"abc", Some(5)),
        Err("Download incomplete: received 3 bytes, expected 5. Sign in to mod.io and try again.".to_string())
    );
    assert_eq!(check_download_response(true, "200 OK", b"abc", Some(3)), Ok(()));
    assert_eq!(check_download_response(true, "200 OK", b"abc", Some(0)), Ok(()));
}

#[test]
fn safe_join_refuses_windows_style_escapes() {
    assert_eq!(safe_join("/game", "..\\evil.dll"), Err("Unsafe zip entry path: ..\\evil.dll".to_string()));
    assert_eq!(safe_join("/game", "a\\..\\..\\b"), Err("Unsafe zip entry path: a\\..\\..\\b".to_string()));
    assert_eq!(safe_join("/game", "C:\\evil.dll"), Err("Absolute zip entry path: C:\\evil.dll".to_string()));
    assert_eq!(safe_join("/game", "\\evil.dll"), Err("Absolute zip entry path: \\evil.dll".to_string()));
}

#[test]
fn sanitize_filename_reads_backslashes_and_drives() {
    assert_eq!(sanitize_filename("dir\\sub\\mod.zip"), "mod.zip");
    assert_eq!(sanitize_filename("C:mod.zip"), "mod.zip");
    assert_eq!(sanitize_filename("C:"), "modfile");
    assert_eq!(sanitize_filename("dir\\.."), "modfile");
}

#[test]
fn sanitized_names_always_join() {
    for name in ["", "/", "..", "a/..", "C:", "C:\\x\\y.dll", "..\\x", "mod.zip", "a\\b/c", "D:E:f"] {
        let clean = sanitize_filename(name);
        assert_eq!(safe_join("/game", &clean), Ok(format!("/game/{clean}")));
    }
}

#[test]
fn downloads_are_extracted_or_copied_under_their_name() {
    assert!(matches!(plan_downloaded_install(true, "/game/Mods/1", "x.zip"), DownloadInstall::Extract));
    match plan_downloaded_install(false, "/game/Mods/1", "dir\\Mod.dll") {
        DownloadInstall::CopyTo(p) => assert_eq!(p, "/game/Mods/1/Mod.dll"),
        DownloadInstall::Extract => panic!("expected a copy"),
    }
}
