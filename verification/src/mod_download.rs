//! Download URLs for mod files.
use vstd::prelude::*;

use crate::number::{dec_seq, u64_to_dec};
use crate::text::{append_all, chars_of, contains, contains_seq, has_char, occurs_at, own, string_of};
use crate::zip_extract::{preview_bytes, preview_text, utf8_lossy_text};

verus! {

/// What `with_api_key` returns.
pub open spec fn with_api_key_spec(url: Seq<char>, api_key: Seq<char>) -> Seq<char> {
    if contains_seq(url, "api_key="@) {
        url
    } else {
        let separator = if url.contains('?') {
            '&'
        } else {
            '?'
        };
        url + seq![separator] + "api_key="@ + api_key
    }
}

/// Adding the key twice adds it once: a URL that went through `with_api_key`
/// already carries an `api_key=` parameter and is returned as it is.
pub proof fn lemma_with_api_key_idempotent(url: Seq<char>, api_key: Seq<char>)
    ensures
        with_api_key_spec(with_api_key_spec(url, api_key), api_key) == with_api_key_spec(url, api_key),
{
    let r = with_api_key_spec(url, api_key);
    if !contains_seq(url, "api_key="@) {
        let sep = if url.contains('?') {
            '&'
        } else {
            '?'
        };
        let i: int = url.len() as int + 1;
        assert(r.subrange(i, i + "api_key="@.len()) =~= "api_key="@);
        assert(occurs_at(r, "api_key="@, i));
    }
}

/// Adds the `api_key` query parameter to a download URL, unless the URL
/// already carries one.
pub fn with_api_key(url: &str, api_key: &str) -> (r: String)
    ensures
        r@ == with_api_key_spec(url@, api_key@),
{
    let u = chars_of(url);
    let marker = chars_of("api_key=");
    if contains(&u, &marker) {
        return string_of(&u);
    }
    let mut r = u;
    if has_char(&r, '?') {
        r.push('&');
    } else {
        r.push('?');
    }
    append_all(&mut r, &marker);
    let k = chars_of(api_key);
    append_all(&mut r, &k);
    string_of(&r)
}

/// The header naming the platform of a download request.
pub const PLATFORM_HEADER: &'static str = "windows";

pub const EMPTY_RESPONSE_ERROR: &'static str =
    "Downloaded mod file is empty. Sign in to mod.io if this mod requires authentication.";

/// What a download response is worth: an error for a failed status (quoting
/// up to 300 bytes of the body), an empty body, or a body whose size is not
/// the nonzero size expected; else the body may be written.
pub open spec fn download_response_check(
    status_ok: bool,
    status_text: Seq<char>,
    body: Seq<u8>,
    expected_size: Option<u64>,
) -> Result<(), Seq<char>> {
    if !status_ok {
        Err("Mod download failed with status "@ + status_text + ". "@ + utf8_lossy_text(preview_bytes(body)))
    } else if body.len() == 0 {
        Err(EMPTY_RESPONSE_ERROR@)
    } else if expected_size matches Some(e) && e > 0 && body.len() != e {
        Err("Download incomplete: received "@ + dec_seq(body.len()) + " bytes, expected "@ + dec_seq(
            expected_size->0 as nat,
        ) + ". Sign in to mod.io and try again."@)
    } else {
        Ok(())
    }
}

pub fn check_download_response(status_ok: bool, status_text: &str, body: &[u8], expected_size: Option<u64>) -> (r:
    Result<(), String>)
    requires
        body@.len() <= u64::MAX,
    ensures
        match r {
            Ok(()) => download_response_check(status_ok, status_text@, body@, expected_size) == Ok::<
                (),
                Seq<char>,
            >(()),
            Err(m) => download_response_check(status_ok, status_text@, body@, expected_size) == Err::<
                (),
                Seq<char>,
            >(m@),
        },
{
    if !status_ok {
        let preview = preview_text(body);
        let mut m = chars_of("Mod download failed with status ");
        append_all(&mut m, &chars_of(status_text));
        append_all(&mut m, &chars_of(". "));
        append_all(&mut m, &chars_of(preview.as_str()));
        let ms = string_of(&m);
        assert(ms@ =~= "Mod download failed with status "@ + status_text@ + ". "@ + utf8_lossy_text(
            preview_bytes(body@),
        ));
        return Err(ms);
    }
    if body.len() == 0 {
        return Err(own(EMPTY_RESPONSE_ERROR));
    }
    match expected_size {
        Some(e) => {
            let got = body.len() as u64;
            if e > 0 && got != e {
                let mut m = chars_of("Download incomplete: received ");
                append_all(&mut m, &u64_to_dec(got));
                append_all(&mut m, &chars_of(" bytes, expected "));
                append_all(&mut m, &u64_to_dec(e));
                append_all(&mut m, &chars_of(". Sign in to mod.io and try again."));
                let ms = string_of(&m);
                assert(ms@ =~= "Download incomplete: received "@ + dec_seq(body@.len()) + " bytes, expected "@
                    + dec_seq(e as nat) + ". Sign in to mod.io and try again."@);
                return Err(ms);
            }
        },
        None => {},
    }
    Ok(())
}

} // verus!
