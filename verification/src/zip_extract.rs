//! Downloaded mod files: checking the payload, and where each entry of a zip
//! archive may be written.
use vstd::prelude::*;

use crate::paths::{join_path, join_path_spec};
use crate::text::{
    lemma_split_pieces_keep_absent, lemma_split_without_separator, lemma_split_pieces_lack_separator, append_all, chars_eq, chars_of, own, split, split_seq, string_of, trim_end_matches,
    trim_end_matches_seq,
};

verus! {

/// The path names a parent directory (`..`) among its components.
pub open spec fn has_parent_component(path: Seq<char>) -> bool {
    exists|i: int|
        0 <= i < split_seq(path, "/"@).len() && #[trigger] split_seq(path, "/"@)[i] == ".."@
}

/// The path with each backslash read as a slash: Windows, which the
/// app is built for too, separates components with either.
pub open spec fn slashed(path: Seq<char>) -> Seq<char> {
    path.map_values(|c: char| if c == '\\' { '/' } else { c })
}

/// The path starts with a drive letter and a colon (`C:`), which names
/// another drive on Windows.
pub open spec fn has_drive_prefix(path: Seq<char>) -> bool {
    &&& path.len() >= 2
    &&& path[1] == ':'
    &&& ('a' <= path[0] <= 'z' || 'A' <= path[0] <= 'Z')
}

/// The path is rooted on some platform the app is built for: it starts
/// with a slash or a backslash, or with a drive.
pub open spec fn is_rooted(path: Seq<char>) -> bool {
    (path.len() > 0 && (path[0] == '/' || path[0] == '\\')) || has_drive_prefix(path)
}

/// What joining a zip entry under `base` gives: an error for an entry that
/// climbs out with `..` (between slashes or backslashes) or is rooted, else
/// the joined path.
pub open spec fn safe_join_spec(base: Seq<char>, entry: Seq<char>) -> Result<Seq<char>, Seq<char>> {
    if has_parent_component(slashed(entry)) {
        Err("Unsafe zip entry path: "@ + entry)
    } else if is_rooted(entry) {
        Err("Absolute zip entry path: "@ + entry)
    } else {
        Ok(join_path_spec(base, entry))
    }
}

/// The characters with each backslash turned into a slash.
pub fn to_slashes(v: &Vec<char>) -> (r: Vec<char>)
    ensures
        r@ == slashed(v@),
{
    let mut r: Vec<char> = Vec::new();
    let mut i: usize = 0;
    while i < v.len()
        invariant
            i <= v.len(),
            r@ =~= slashed(v@.take(i as int)),
        decreases v.len() - i,
    {
        let c = v[i];
        if c == '\\' {
            r.push('/');
        } else {
            r.push(c);
        }
        assert(v@.take(i + 1) =~= v@.take(i as int).push(c));
        i = i + 1;
    }
    assert(v@.take(v.len() as int) =~= v@);
    r
}

/// The characters start with a drive letter and a colon.
pub fn starts_with_drive(v: &Vec<char>) -> (r: bool)
    ensures
        r == has_drive_prefix(v@),
{
    v.len() >= 2 && v[1] == ':' && (('a' <= v[0] && v[0] <= 'z') || ('A' <= v[0] && v[0] <= 'Z'))
}

/// A `Result` of strings as its view.
pub open spec fn result_view(r: Result<String, String>) -> Result<Seq<char>, Seq<char>> {
    match r {
        Ok(p) => Ok(p@),
        Err(m) => Err(m@),
    }
}

/// Joins a zip entry under `base`, refusing entries that climb out with `..`
/// or are absolute.
pub fn safe_join(base: &str, entry: &str) -> (r: Result<String, String>)
    ensures
        result_view(r) == safe_join_spec(base@, entry@),
{
    let e = chars_of(entry);
    let es = to_slashes(&e);
    let slash = chars_of("/");
    proof {
        reveal_strlit("/");
        reveal_strlit("..");
    }
    let parts = split(&es, &slash);
    let ghost pv = parts@.map_values(|x: Vec<char>| x@);
    assert(pv == split_seq(slashed(entry@), "/"@));
    let dotdot = chars_of("..");
    let mut i: usize = 0;
    while i < parts.len()
        invariant
            i <= parts.len(),
            pv == parts@.map_values(|x: Vec<char>| x@),
            pv == split_seq(slashed(entry@), "/"@),
            dotdot@ == ".."@,
            e@ == entry@,
            forall|j: int| 0 <= j < i ==> pv[j] != ".."@,
        decreases parts.len() - i,
    {
        assert(pv[i as int] == parts@[i as int]@);
        if chars_eq(&parts[i], &dotdot) {
            assert(split_seq(slashed(entry@), "/"@)[i as int] == ".."@);
            assert(has_parent_component(slashed(entry@)));
            let mut m = chars_of("Unsafe zip entry path: ");
            append_all(&mut m, &e);
            let ms = string_of(&m);
            assert(ms@ =~= "Unsafe zip entry path: "@ + entry@);
            return Err(ms);
        }
        i = i + 1;
    }
    if (e.len() > 0 && (e[0] == '/' || e[0] == '\\')) || starts_with_drive(&e) {
        let mut m = chars_of("Absolute zip entry path: ");
        append_all(&mut m, &e);
        let ms = string_of(&m);
        assert(ms@ =~= "Absolute zip entry path: "@ + entry@);
        return Err(ms);
    }
    Ok(join_path(base, entry))
}

/// The path's components as `Path::components` yields them: the segments
/// between slashes or backslashes without empty ones and `.`.
pub open spec fn normal_segments(path: Seq<char>) -> Seq<Seq<char>> {
    split_seq(slashed(path), "/"@).filter(|s: Seq<char>| s.len() > 0 && s != "."@)
}

/// `Path::file_name`: the last component, unless it is `..` (or there is
/// none).
pub open spec fn path_file_name(path: Seq<char>) -> Option<Seq<char>> {
    let segs = normal_segments(path);
    if segs.len() == 0 || segs.last() == ".."@ {
        None
    } else {
        Some(segs.last())
    }
}

/// The slashed text holds no backslash.
proof fn lemma_slashed_has_no_backslash(path: Seq<char>)
    ensures
        !slashed(path).contains('\\'),
{
    assert forall|j: int| 0 <= j < slashed(path).len() implies slashed(path)[j] != '\\' by {}
}

/// A path's file name holds neither a slash nor a backslash.
pub proof fn lemma_file_name_has_no_slash(path: Seq<char>)
    ensures
        path_file_name(path) matches Some(n) ==> !n.contains('/') && !n.contains('\\'),
{
    reveal_strlit("/");
    let segs = normal_segments(path);
    if segs.len() > 0 {
        let pred = |s: Seq<char>| s.len() > 0 && s != "."@;
        let sp = slashed(path);
        let parts = split_seq(sp, "/"@);
        assert(segs.contains(segs.last()));
        parts.lemma_filter_contains_rev(pred, segs.last());
        let k = choose|k: int| 0 <= k < parts.len() && parts[k] == segs.last();
        assert("/"@ =~= seq!['/']);
        lemma_split_pieces_lack_separator(sp, '/', k);
        lemma_slashed_has_no_backslash(path);
        lemma_split_pieces_keep_absent(sp, '/', '\\', k);
    }
}

/// A name that stands for one file: not empty, not `.` or `..`, and not
/// naming a drive.
pub open spec fn is_plain_name(n: Seq<char>) -> bool {
    n.len() > 0 && n != "."@ && n != ".."@ && !has_drive_prefix(n)
}

/// The file name of a download (a drive named before it, as in `C:mod.zip`,
/// left out), or `modfile` when it has none.
pub open spec fn sanitized_filename_spec(filename: Seq<char>) -> Seq<char> {
    match path_file_name(filename) {
        Some(n) => {
            let m = if has_drive_prefix(n) {
                n.skip(2)
            } else {
                n
            };
            if is_plain_name(m) {
                m
            } else {
                "modfile"@
            }
        },
        None => "modfile"@,
    }
}

proof fn lemma_modfile_is_plain()
    ensures
        is_plain_name("modfile"@),
        !"modfile"@.contains('/'),
        !"modfile"@.contains('\\'),
{
    reveal_strlit("modfile");
    reveal_strlit(".");
    reveal_strlit("..");
    assert("modfile"@.len() == 7);
    assert forall|j: int| 0 <= j < "modfile"@.len() implies "modfile"@[j] != '/' && "modfile"@[j] != '\\' by {}
}

/// The sanitized name is one plain name, free of separators.
pub proof fn lemma_sanitized_is_plain(filename: Seq<char>)
    ensures
        is_plain_name(sanitized_filename_spec(filename)),
        !sanitized_filename_spec(filename).contains('/'),
        !sanitized_filename_spec(filename).contains('\\'),
{
    lemma_modfile_is_plain();
    lemma_file_name_has_no_slash(filename);
    if let Some(n) = path_file_name(filename) {
        if has_drive_prefix(n) {
            assert forall|j: int| 0 <= j < n.skip(2).len() implies n.skip(2)[j] != '/' && n.skip(2)[j] != '\\' by {
                assert(n.skip(2)[j] == n[j + 2]);
            }
        }
    }
}

/// A sanitized file name joins under any folder: `safe_join` accepts it.
pub proof fn lemma_sanitized_name_joins(base: Seq<char>, filename: Seq<char>)
    ensures
        safe_join_spec(base, sanitized_filename_spec(filename)) == Ok::<Seq<char>, Seq<char>>(
            join_path_spec(base, sanitized_filename_spec(filename)),
        ),
{
    let r = sanitized_filename_spec(filename);
    lemma_sanitized_is_plain(filename);
    reveal_strlit("/");
    reveal_strlit("..");
    assert(slashed(r) =~= r) by {
        assert forall|j: int| 0 <= j < r.len() implies slashed(r)[j] == r[j] by {
            assert(r[j] != '\\');
        }
    }
    assert("/"@ =~= seq!['/']);
    lemma_split_without_separator(r, '/');
    assert(split_seq(r, "/"@) =~= seq![r]);
    assert(!has_parent_component(slashed(r)));
    assert(r[0] != '/' && r[0] != '\\');
}

/// The file name of a download, or `modfile` when it has none.
pub fn sanitize_filename(filename: &str) -> (r: String)
    ensures
        r@ == sanitized_filename_spec(filename@),
        r@.len() > 0,
        !r@.contains('/'),
        !r@.contains('\\'),
{
    proof {
        lemma_sanitized_is_plain(filename@);
    }
    let slash = chars_of("/");
    proof {
        reveal_strlit("/");
        reveal_strlit(".");
        reveal_strlit("..");
    }
    let parts = split(&to_slashes(&chars_of(filename)), &slash);
    let ghost pv = parts@.map_values(|x: Vec<char>| x@);
    let ghost pred = |s: Seq<char>| s.len() > 0 && s != "."@;
    assert(pv == split_seq(slashed(filename@), "/"@));
    let mut last: Option<usize> = None;
    let mut i: usize = 0;
    proof {
        reveal(Seq::filter);
    }
    assert(pv.take(0) =~= Seq::<Seq<char>>::empty());
    let dot = chars_of(".");
    while i < parts.len()
        invariant
            i <= parts.len(),
            pv == parts@.map_values(|x: Vec<char>| x@),
            pred == (|s: Seq<char>| s.len() > 0 && s != "."@),
            dot@ == "."@,
            match last {
                Some(k) => k < i && pv.take(i as int).filter(pred).len() > 0 && pv.take(i as int).filter(
                    pred,
                ).last() == pv[k as int],
                None => pv.take(i as int).filter(pred).len() == 0,
            },
        decreases parts.len() - i,
    {
        proof {
            assert(pv.take(i + 1) =~= pv.take(i as int).push(pv[i as int]));
            pv.take(i as int).lemma_filter_push(pv[i as int], pred);
        }
        assert(pv[i as int] == parts@[i as int]@);
        if parts[i].len() > 0 && !chars_eq(&parts[i], &dot) {
            last = Some(i);
        }
        i = i + 1;
    }
    assert(pv.take(i as int) =~= pv);
    let name: Vec<char> = match last {
        Some(k) => {
            assert(pv[k as int] == parts@[k as int]@);
            if chars_eq(&parts[k], &chars_of("..")) {
                return own("modfile");
            }
            if starts_with_drive(&parts[k]) {
                let mut rest: Vec<char> = Vec::new();
                let mut j: usize = 2;
                while j < parts[k].len()
                    invariant
                        k < parts@.len(),
                        2 <= j <= parts@[k as int]@.len(),
                        rest@ =~= parts@[k as int]@.subrange(2, j as int),
                    decreases parts@[k as int]@.len() - j,
                {
                    rest.push(parts[k][j]);
                    j = j + 1;
                }
                assert(rest@ =~= parts@[k as int]@.skip(2));
                rest
            } else {
                parts[k].clone()
            }
        },
        None => return own("modfile"),
    };
    if name.len() > 0 && !chars_eq(&name, &dot) && !chars_eq(&name, &chars_of("..")) && !starts_with_drive(&name) {
        string_of(&name)
    } else {
        own("modfile")
    }
}

/// How a checked download is installed into a folder.
pub enum DownloadInstall {
    /// A zip archive: extract it into the folder.
    Extract,
    /// Any other file: copy it to this path, under its sanitized name.
    CopyTo(String),
}

/// How a checked download is installed into `destination`: a zip archive is
/// extracted; any other file is copied under its sanitized name, which
/// always joins under the folder.
pub fn plan_downloaded_install(is_zip: bool, destination: &str, original_filename: &str) -> (r: DownloadInstall)
    ensures
        is_zip ==> r is Extract,
        !is_zip ==> (r matches DownloadInstall::CopyTo(p) && p@ == join_path_spec(
            destination@,
            sanitized_filename_spec(original_filename@),
        )),
{
    if is_zip {
        return DownloadInstall::Extract;
    }
    let name = sanitize_filename(original_filename);
    proof {
        lemma_sanitized_name_joins(destination@, original_filename@);
    }
    match safe_join(destination, name.as_str()) {
        Ok(p) => DownloadInstall::CopyTo(p),
        Err(_) => DownloadInstall::CopyTo(join_path(destination, name.as_str())),
    }
}

/// What the first bytes of a download say: a zip archive starts with `PK`.
pub fn looks_like_zip(header: &[u8], read: usize) -> (r: bool)
    requires
        read <= header@.len(),
    ensures
        r == (read >= 2 && header@[0] == 80u8 && header@[1] == 75u8),
{
    read >= 2 && header[0] == 80u8 && header[1] == 75u8
}

pub const EMPTY_DOWNLOAD_ERROR: &'static str =
    "Downloaded mod file is empty. You may need to sign in to mod.io to download this mod.";

pub const HTML_DOWNLOAD_ERROR: &'static str =
    "Download failed: received HTML instead of a mod file. Check your mod.io login and API configuration.";

/// Text of `String::from_utf8_lossy` for these bytes.
pub uninterp spec fn utf8_lossy_text(bytes: Seq<u8>) -> Seq<char>;

/// `String::from_utf8_lossy`; its text is named, not stated.
#[verifier::external_body]
fn utf8_lossy(bytes: &[u8]) -> (r: String)
    ensures
        r@ == utf8_lossy_text(bytes@),
{
    String::from_utf8_lossy(bytes).into_owned()
}

/// The first bytes of a body (at most 300) that an error message quotes.
pub open spec fn preview_bytes(bytes: Seq<u8>) -> Seq<u8> {
    bytes.take(
        if bytes.len() < 300 {
            bytes.len() as int
        } else {
            300
        },
    )
}

/// The text of the first (at most 300) bytes of a body.
pub fn preview_text(bytes: &[u8]) -> (r: String)
    ensures
        r@ == utf8_lossy_text(preview_bytes(bytes@)),
{
    let n: usize = if bytes.len() < 300 {
        bytes.len()
    } else {
        300
    };
    let mut head: Vec<u8> = Vec::new();
    let mut i: usize = 0;
    while i < n
        invariant
            i <= n,
            n <= bytes@.len(),
            n == (if bytes@.len() < 300 {
                bytes@.len() as int
            } else {
                300
            }),
            head@ == bytes@.take(i as int),
        decreases n - i,
    {
        head.push(bytes[i]);
        i = i + 1;
        assert(head@ =~= bytes@.take(i as int));
    }
    utf8_lossy(head.as_slice())
}

/// A download that is empty, an HTML page or a JSON answer is an error
/// (the JSON one quotes up to 300 bytes of it); anything else may be a mod.
pub fn validate_download_payload(bytes: &[u8]) -> (r: Result<(), String>)
    ensures
        bytes@.len() == 0 ==> (r matches Err(m) && m@ == EMPTY_DOWNLOAD_ERROR@),
        bytes@.len() > 0 && bytes@[0] == 60u8 ==> (r matches Err(m) && m@ == HTML_DOWNLOAD_ERROR@),
        bytes@.len() > 0 && (bytes@[0] == 123u8 || bytes@[0] == 91u8) ==> (r matches Err(m) && m@
            == "Download failed: server returned an error instead of a mod file. "@ + utf8_lossy_text(
            preview_bytes(bytes@),
        )),
        bytes@.len() > 0 && bytes@[0] != 60u8 && bytes@[0] != 123u8 && bytes@[0] != 91u8 ==> r is Ok,
{
    if bytes.len() == 0 {
        return Err(own(EMPTY_DOWNLOAD_ERROR));
    }
    if bytes[0] == 60u8 {
        return Err(own(HTML_DOWNLOAD_ERROR));
    }
    if bytes[0] == 123u8 || bytes[0] == 91u8 {
        let preview = preview_text(bytes);
        let mut m = chars_of("Download failed: server returned an error instead of a mod file. ");
        append_all(&mut m, &chars_of(preview.as_str()));
        return Err(string_of(&m));
    }
    Ok(())
}

/// The entry names a directory: it ends in `/`.
pub open spec fn names_directory(entry: Seq<char>) -> bool {
    entry.len() > 0 && entry.last() == '/'
}

/// Where a zip entry goes: a name ending in `/` is a directory (trailing
/// slashes removed), anything else a file; both must join safely.
pub fn zip_entry_target(destination: &str, entry_name: &str) -> (r: Result<(String, bool), String>)
    ensures
        ({
            let target = if names_directory(entry_name@) {
                trim_end_matches_seq(entry_name@, "/"@)
            } else {
                entry_name@
            };
            match r {
                Ok((p, d)) => d == names_directory(entry_name@) && safe_join_spec(destination@, target)
                    == Ok::<Seq<char>, Seq<char>>(p@),
                Err(m) => safe_join_spec(destination@, target) == Err::<Seq<char>, Seq<char>>(m@),
            }
        }),
{
    let e = chars_of(entry_name);
    if e.len() > 0 && e[e.len() - 1] == '/' {
        proof {
            reveal_strlit("/");
        }
        let trimmed = trim_end_matches(&e, &chars_of("/"));
        return match safe_join(destination, string_of(&trimmed).as_str()) {
            Ok(p) => Ok((p, true)),
            Err(m) => Err(m),
        };
    }
    match safe_join(destination, entry_name) {
        Ok(p) => Ok((p, false)),
        Err(m) => Err(m),
    }
}

} // verus!
