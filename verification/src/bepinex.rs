//! BepInEx, the mod loader: whether it is installed in the game directory,
//! which version (read from its DLLs' version resources), and what to tell
//! the user.
use vstd::prelude::*;

use crate::number::{dec_seq, u64_to_dec};
use crate::version_resource::{
    first_language, first_language_spec, fixed_version, fixed_version_spec, string_value,
    string_value_spec, words_from_bytes, words_of,
};
use crate::text::{append_all, chars_of, opt_view, own, starts_with, starts_with_seq, string_of, trim, trim_seq};

verus! {

pub const REQUIRED_VERSION: &'static str = "5.4.20";

pub const DOWNLOAD_URL: &'static str =
    "https://github.com/BepInEx/BepInEx/releases/download/v5.4.20/BepInEx_x64_5.4.20.0.zip";

pub const WINHTTP_DLL: &'static str = "winhttp.dll";

pub const DOORSTOP_CONFIG: &'static str = "doorstop_config.ini";

pub const BEPINEX_DIR: &'static str = "BepInEx";

pub const CHANGELOG_TXT: &'static str = "changelog.txt";

pub const PRELOADER_DLL: &'static str = "BepInEx/core/BepInEx.Preloader.dll";

pub const BEPINEX_DLL: &'static str = "BepInEx/core/BepInEx.dll";

#[derive(PartialEq, Eq, Structural, Clone, Copy, Debug)]
pub enum BepInExState {
    Missing,
    Installed,
    WrongVersion,
}

/// What the app reports about BepInEx.
pub struct BepInExStatus {
    pub state: String,
    pub found_version: Option<String>,
    pub message: Option<String>,
    pub can_continue: bool,
}

pub open spec fn missing_message() -> Seq<char> {
    "BepInEx "@ + REQUIRED_VERSION@ + " (x64) was not found in your game directory."@
}

pub open spec fn wrong_version_message(found: Option<Seq<char>>) -> Seq<char> {
    "Found BepInEx "@ + (match found {
        Some(v) => v,
        None => "an unknown version"@,
    }) + ". Modkist expects "@ + REQUIRED_VERSION@ + ". You can continue, but some mods may not work."@
}

impl BepInExStatus {
    /// Missing BepInEx stops the user; a wrong version warns but lets them
    /// continue.
    pub fn from_detection(state: BepInExState, found_version: Option<String>) -> (r: BepInExStatus)
        ensures
            state == BepInExState::Missing ==> {
                &&& r.state@ == "missing"@
                &&& r.found_version == found_version
                &&& opt_view(r.message) == Some(missing_message())
                &&& !r.can_continue
            },
            state == BepInExState::Installed ==> {
                &&& r.state@ == "installed"@
                &&& r.found_version == found_version
                &&& r.message is None
                &&& r.can_continue
            },
            state == BepInExState::WrongVersion ==> {
                &&& r.state@ == "wrongVersion"@
                &&& opt_view(r.found_version) == opt_view(found_version)
                &&& opt_view(r.message) == Some(wrong_version_message(opt_view(found_version)))
                &&& r.can_continue
            },
    {
        match state {
            BepInExState::Missing => {
                let mut m = chars_of("BepInEx ");
                append_all(&mut m, &chars_of(REQUIRED_VERSION));
                append_all(&mut m, &chars_of(" (x64) was not found in your game directory."));
                BepInExStatus {
                    state: own("missing"),
                    found_version,
                    message: Some(string_of(&m)),
                    can_continue: false,
                }
            },
            BepInExState::Installed => BepInExStatus {
                state: own("installed"),
                found_version,
                message: None,
                can_continue: true,
            },
            BepInExState::WrongVersion => {
                let mut m = chars_of("Found BepInEx ");
                let copy = match &found_version {
                    Some(v) => Some(own(v.as_str())),
                    None => None,
                };
                match &found_version {
                    Some(v) => append_all(&mut m, &chars_of(v.as_str())),
                    None => append_all(&mut m, &chars_of("an unknown version")),
                }
                append_all(&mut m, &chars_of(". Modkist expects "));
                append_all(&mut m, &chars_of(REQUIRED_VERSION));
                append_all(
                    &mut m,
                    &chars_of(". You can continue, but some mods may not work."),
                );
                BepInExStatus {
                    state: own("wrongVersion"),
                    found_version: copy,
                    message: Some(string_of(&m)),
                    can_continue: true,
                }
            },
        }
    }
}

/// BepInEx is laid out in the game directory: `winhttp.dll`,
/// `doorstop_config.ini` and the preloader DLL are files there.
pub fn has_bepinex_structure(has_winhttp: bool, has_doorstop_config: bool, has_preloader: bool) -> (r:
    bool)
    ensures
        r == (has_winhttp && has_doorstop_config && has_preloader),
{
    has_winhttp && has_doorstop_config && has_preloader
}

/// The version starts (after trimming) with the required one.
pub fn version_matches_required(version: &str) -> (r: bool)
    ensures
        r == starts_with_seq(trim_seq(version@), REQUIRED_VERSION@),
{
    starts_with(&trim(&chars_of(version)), &chars_of(REQUIRED_VERSION))
}

/// The state found from the BepInEx layout and, in probe order, the version
/// read from each probe DLL (`None` when it is missing or unreadable): the
/// first version read decides between installed and wrong version.
pub open spec fn detect_spec(has_structure: bool, versions: Seq<Option<Seq<char>>>) -> (BepInExState, Option<Seq<char>>)
    decreases versions.len(),
{
    if !has_structure {
        (BepInExState::Missing, None)
    } else if versions.len() == 0 {
        (BepInExState::WrongVersion, None)
    } else {
        match versions[0] {
            Some(v) => if starts_with_seq(trim_seq(v), REQUIRED_VERSION@) {
                (BepInExState::Installed, Some(v))
            } else {
                (BepInExState::WrongVersion, Some(v))
            },
            None => detect_spec(has_structure, versions.skip(1)),
        }
    }
}

/// BepInEx counts as installed only in its layout and only when the first
/// version read from the probe DLLs is the required one; any other first
/// version read is the wrong version, and is the one reported.
pub proof fn lemma_detect_first_version(has_structure: bool, versions: Seq<Option<Seq<char>>>, k: int)
    requires
        0 <= k < versions.len(),
        versions[k] is Some,
        forall|j: int| 0 <= j < k ==> versions[j] is None,
    ensures
        has_structure ==> detect_spec(has_structure, versions).1 == versions[k],
        has_structure && starts_with_seq(trim_seq(versions[k]->0), REQUIRED_VERSION@) ==> detect_spec(
            has_structure,
            versions,
        ).0 == BepInExState::Installed,
        has_structure && !starts_with_seq(trim_seq(versions[k]->0), REQUIRED_VERSION@) ==> detect_spec(
            has_structure,
            versions,
        ).0 == BepInExState::WrongVersion,
    decreases k,
{
    if k > 0 {
        assert(versions[0] is None);
        assert(versions.skip(1)[k - 1] == versions[k]);
        lemma_detect_first_version(has_structure, versions.skip(1), k - 1);
    }
}

/// Whatever the probes read, an installed BepInEx was found in its layout
/// with a version that is the required one, and nothing read gives a
/// missing BepInEx in its layout.
pub proof fn lemma_detect_installed_is_required(has_structure: bool, versions: Seq<Option<Seq<char>>>)
    ensures
        detect_spec(has_structure, versions).0 == BepInExState::Installed ==> has_structure && (detect_spec(
            has_structure,
            versions,
        ).1 matches Some(v) && starts_with_seq(trim_seq(v), REQUIRED_VERSION@)),
        detect_spec(has_structure, versions).0 == BepInExState::Missing <==> !has_structure,
        (forall|j: int| 0 <= j < versions.len() ==> versions[j] is None) ==> detect_spec(has_structure, versions).1
            is None,
    decreases versions.len(),
{
    if has_structure && versions.len() > 0 && versions[0] is None {
        lemma_detect_installed_is_required(has_structure, versions.skip(1));
        assert forall|j: int| 0 <= j < versions.skip(1).len() && (forall|i: int| 0 <= i < versions.len() ==> versions[i] is None) implies #[trigger] versions.skip(1)[j] is None by {
            assert(versions.skip(1)[j] == versions[j + 1]);
        }
    }
}

pub open spec fn versions_view(v: Seq<Option<String>>) -> Seq<Option<Seq<char>>> {
    v.map_values(|o: Option<String>| opt_view(o))
}

/// The DLLs whose version tells which BepInEx is installed, in the order
/// they are read.
pub fn version_probe_dlls() -> (r: Vec<String>)
    ensures
        r@.len() == 2,
        r@[0]@ == BEPINEX_DLL@,
        r@[1]@ == PRELOADER_DLL@,
{
    let mut v: Vec<String> = Vec::new();
    v.push(own(BEPINEX_DLL));
    v.push(own(PRELOADER_DLL));
    v
}

pub fn detect_bepinex(has_structure: bool, probe_versions: &Vec<Option<String>>) -> (r: (
    BepInExState,
    Option<String>,
))
    ensures
        (r.0, opt_view(r.1)) == detect_spec(has_structure, versions_view(probe_versions@)),
        r.0 == BepInExState::Installed ==> (r.1 matches Some(v) && starts_with_seq(trim_seq(v@), REQUIRED_VERSION@)),
{
    proof {
        lemma_detect_installed_is_required(has_structure, versions_view(probe_versions@));
    }
    if !has_structure {
        return (BepInExState::Missing, None);
    }
    let ghost vv = versions_view(probe_versions@);
    let mut i: usize = 0;
    assert(vv.skip(0) =~= vv);
    while i < probe_versions.len()
        invariant
            i <= probe_versions.len(),
            has_structure,
            vv == versions_view(probe_versions@),
            detect_spec(has_structure, vv) == detect_spec(has_structure, vv.skip(i as int)),
        decreases probe_versions.len() - i,
    {
        assert(vv.skip(i as int)[0] == opt_view(probe_versions@[i as int]));
        assert(vv.skip(i as int).skip(1) =~= vv.skip(i + 1));
        match &probe_versions[i] {
            Some(v) => {
                if version_matches_required(v.as_str()) {
                    return (BepInExState::Installed, Some(own(v.as_str())));
                }
                return (BepInExState::WrongVersion, Some(own(v.as_str())));
            },
            None => {},
        }
        i = i + 1;
    }
    assert(vv.skip(i as int) =~= Seq::<Option<Seq<char>>>::empty());
    (BepInExState::WrongVersion, None)
}

pub fn status_for_game_dir(has_structure: bool, probe_versions: &Vec<Option<String>>) -> (r:
    BepInExStatus)
    ensures
        ({
            let d = detect_spec(has_structure, versions_view(probe_versions@));
            &&& d.0 == BepInExState::Missing ==> r.state@ == "missing"@ && !r.can_continue
            &&& d.0 == BepInExState::Installed ==> r.state@ == "installed"@ && opt_view(r.found_version)
                == d.1 && r.message is None
            &&& d.0 == BepInExState::WrongVersion ==> r.state@ == "wrongVersion"@ && opt_view(
                r.found_version,
            ) == d.1 && opt_view(r.message) == Some(wrong_version_message(d.1))
        }),
{
    let (state, found) = detect_bepinex(has_structure, probe_versions);
    BepInExStatus::from_detection(state, found)
}

pub const WRONG_VERSION_INSTALL_ERROR: &'static str =
    "A different BepInEx version is already installed. Use reinstall from Settings or remove it manually.";

/// Installing goes ahead only when BepInEx is missing: `Ok(false)` when it
/// is already installed, an error when another version is.
pub fn install_decision(state: BepInExState) -> (r: Result<bool, String>)
    ensures
        state == BepInExState::Missing ==> r == Ok::<bool, String>(true),
        state == BepInExState::Installed ==> r == Ok::<bool, String>(false),
        state == BepInExState::WrongVersion ==> (r matches Err(m) && m@ == WRONG_VERSION_INSTALL_ERROR@),
{
    match state {
        BepInExState::Installed => Ok(false),
        BepInExState::WrongVersion => Err(own(WRONG_VERSION_INSTALL_ERROR)),
        BepInExState::Missing => Ok(true),
    }
}

pub const VERIFY_AFTER_INSTALL_ERROR: &'static str =
    "BepInEx was extracted but verification failed. Check your game directory and try again.";

/// After extracting, the install is accepted only if BepInEx now reads as
/// installed.
pub fn verify_after_install(status: BepInExStatus) -> (r: Result<BepInExStatus, String>)
    ensures
        status.state@ == "installed"@ ==> r == Ok::<BepInExStatus, String>(status),
        status.state@ != "installed"@ ==> (r matches Err(m) && m@ == VERIFY_AFTER_INSTALL_ERROR@),
{
    if crate::text::chars_eq(&chars_of(status.state.as_str()), &chars_of("installed")) {
        Ok(status)
    } else {
        Err(own(VERIFY_AFTER_INSTALL_ERROR))
    }
}

// ---------------------------------------------------------------------------
// Version resources
// ---------------------------------------------------------------------------

/// `Major.Minor.Patch.Build` of the fixed file version.
pub open spec fn fixed_version_text(v: (u16, u16, u16, u16)) -> Seq<char> {
    dec_seq(v.0 as nat) + "."@ + dec_seq(v.1 as nat) + "."@ + dec_seq(v.2 as nat) + "."@ + dec_seq(
        v.3 as nat,
    )
}

/// The version a version resource states: its `FileVersion` string, else its
/// `ProductVersion` string (both for its first language, if it has one),
/// else its fixed file version.
pub fn version_from_parts(
    file_version: Option<String>,
    product_version: Option<String>,
    fixed: Option<(u16, u16, u16, u16)>,
) -> (r: Option<String>)
    ensures
        opt_view(r) == (match opt_view(file_version) {
            Some(v) => Some(v),
            None => match opt_view(product_version) {
                Some(v) => Some(v),
                None => match fixed {
                    Some(f) => Some(fixed_version_text(f)),
                    None => None,
                },
            },
        }),
{
    match file_version {
        Some(v) => return Some(v),
        None => {},
    }
    match product_version {
        Some(v) => return Some(v),
        None => {},
    }
    match fixed {
        Some((a, b, c, d)) => {
            let mut s = u64_to_dec(a as u64);
            append_all(&mut s, &chars_of("."));
            append_all(&mut s, &u64_to_dec(b as u64));
            append_all(&mut s, &chars_of("."));
            append_all(&mut s, &u64_to_dec(c as u64));
            append_all(&mut s, &chars_of("."));
            append_all(&mut s, &u64_to_dec(d as u64));
            Some(string_of(&s))
        },
        None => None,
    }
}

/// The bytes begin with an MS-DOS header: at least the header's 64 bytes,
/// the first two being the `MZ` signature. pelite reads the signature as a
/// `u16` in the machine's byte order, so both byte orders are admitted.
pub open spec fn has_dos_header(b: Seq<u8>) -> bool {
    &&& b.len() >= 64
    &&& (b[0] == 0x4Du8 && b[1] == 0x5Au8) || (b[0] == 0x5Au8 && b[1] == 0x4Du8)
}

/// The bytes of the version resource (type `RT_VERSION`, id 1) that pelite
/// finds in these bytes read as a 64-bit PE image.
pub uninterp spec fn pe64_version_resource(bytes: Seq<u8>) -> Seq<u8>;

/// The same for the bytes read as a 32-bit PE image.
pub uninterp spec fn pe32_version_resource(bytes: Seq<u8>) -> Seq<u8>;

/// `pelite::pe64::PeFile::from_bytes`, `Pe::resources` and
/// `Resources::find_resource` for the version resource, its bytes copied
/// out. Claimed: it fails on bytes without a DOS header (the first checks of
/// `from_bytes` are the header's size and signature), and what it finds is
/// a name of the bytes. Whether it succeeds on other bytes is not claimed:
/// `from_bytes` also checks the buffer's address alignment.
#[verifier::external_body]
fn pe64_version_resource_bytes(bytes: &[u8]) -> (r: Option<Vec<u8>>)
    ensures
        r is Some ==> has_dos_header(bytes@),
        r matches Some(found) ==> found@ == pe64_version_resource(bytes@),
{
    let pe = pelite::pe64::PeFile::from_bytes(bytes).ok()?;
    let res = pelite::pe64::Pe::resources(pe).ok()?;
    let path = [pelite::resources::Name::VERSION, pelite::resources::Name::Id(1)];
    res.find_resource(&path).ok().map(|found| found.to_vec())
}

/// The same through `pelite::pe32`, for a 32-bit image; the same claims.
#[verifier::external_body]
fn pe32_version_resource_bytes(bytes: &[u8]) -> (r: Option<Vec<u8>>)
    ensures
        r is Some ==> has_dos_header(bytes@),
        r matches Some(found) ==> found@ == pe32_version_resource(bytes@),
{
    let pe = pelite::pe32::PeFile::from_bytes(bytes).ok()?;
    let res = pelite::pe32::Pe::resources(pe).ok()?;
    let path = [pelite::resources::Name::VERSION, pelite::resources::Name::Id(1)];
    res.find_resource(&path).ok().map(|found| found.to_vec())
}

/// UTF-16 decoded, each unpaired surrogate read as U+FFFD: what
/// `String::from_utf16_lossy` gives.
pub open spec fn utf16_lossy_text(w: Seq<u16>) -> Seq<char>
    decreases w.len(),
{
    if w.len() == 0 {
        Seq::empty()
    } else if w[0] < 0xD800u16 || w[0] > 0xDFFFu16 {
        seq![w[0] as char] + utf16_lossy_text(w.skip(1))
    } else if w[0] <= 0xDBFFu16 && w.len() > 1 && 0xDC00u16 <= w[1] <= 0xDFFFu16 {
        seq![(0x10000 + (w[0] - 0xD800) * 0x400 + (w[1] - 0xDC00)) as char] + utf16_lossy_text(w.skip(2))
    } else {
        seq!['\u{FFFD}'] + utf16_lossy_text(w.skip(1))
    }
}

/// `String::from_utf16_lossy`: the words decoded as UTF-16, unpaired
/// surrogates replaced by U+FFFD, as its documentation states.
#[verifier::external_body]
fn utf16_lossy(words: &[u16]) -> (r: String)
    ensures
        r@ == utf16_lossy_text(words@),
{
    String::from_utf16_lossy(words)
}

/// `FileVersion` and `ProductVersion` as words.
pub open spec fn file_version_key() -> Seq<u16> {
    seq![70u16, 105, 108, 101, 86, 101, 114, 115, 105, 111, 110]
}

pub open spec fn product_version_key() -> Seq<u16> {
    seq![80u16, 114, 111, 100, 117, 99, 116, 86, 101, 114, 115, 105, 111, 110]
}

/// The version a version resource states: its `FileVersion` string, else its
/// `ProductVersion` string (both for its first language, if it has one),
/// else its fixed file version as `Major.Minor.Patch.Build`.
pub open spec fn resource_version_spec(words: Seq<u16>) -> Option<Seq<char>> {
    let fixed = match fixed_version_spec(words) {
        Some(f) => Some(fixed_version_text(f)),
        None => None,
    };
    match first_language_spec(words) {
        Some(lang) => match string_value_spec(words, lang, file_version_key()) {
            Some(v) => Some(utf16_lossy_text(v)),
            None => match string_value_spec(words, lang, product_version_key()) {
                Some(v) => Some(utf16_lossy_text(v)),
                None => fixed,
            },
        },
        None => fixed,
    }
}

/// The version stated by the bytes of a version resource.
pub fn version_of_resource(resource: &[u8]) -> (r: Option<String>)
    ensures
        opt_view(r) == resource_version_spec(words_of(resource@)),
{
    let words = words_from_bytes(resource);
    let fv_key = vec![70u16, 105, 108, 101, 86, 101, 114, 115, 105, 111, 110];
    let pv_key = vec![80u16, 114, 111, 100, 117, 99, 116, 86, 101, 114, 115, 105, 111, 110];
    assert(fv_key@ =~= file_version_key());
    assert(pv_key@ =~= product_version_key());
    let (file_version, product_version) = match first_language(&words) {
        Some(lang) => match string_value(&words, lang, &fv_key) {
            Some(v) => (Some(utf16_lossy(v.as_slice())), None),
            None => match string_value(&words, lang, &pv_key) {
                Some(v) => (None, Some(utf16_lossy(v.as_slice()))),
                None => (None, None),
            },
        },
        None => (None, None),
    };
    version_from_parts(file_version, product_version, fixed_version(&words))
}

/// The version of a DLL from its version resources: the one the 64-bit
/// image's resource states, else the one the 32-bit image's resource states
/// (`None` where that image or resource was not found).
pub open spec fn version_from_resources_spec(pe64: Option<Seq<u8>>, pe32: Option<Seq<u8>>) -> Option<Seq<char>> {
    let from32 = match pe32 {
        Some(b) => resource_version_spec(words_of(b)),
        None => None,
    };
    match pe64 {
        Some(b) => match resource_version_spec(words_of(b)) {
            Some(v) => Some(v),
            None => from32,
        },
        None => from32,
    }
}

pub open spec fn opt_bytes_view(o: Option<Vec<u8>>) -> Option<Seq<u8>> {
    match o {
        Some(b) => Some(b@),
        None => None,
    }
}

/// The version of a DLL given what was found of its 64-bit and 32-bit version
/// resources (see `version_from_resources_spec`).
pub fn version_from_resources(pe64: &Option<Vec<u8>>, pe32: &Option<Vec<u8>>) -> (r: Option<String>)
    ensures
        opt_view(r) == version_from_resources_spec(opt_bytes_view(*pe64), opt_bytes_view(*pe32)),
{
    match pe64 {
        Some(b) => match version_of_resource(b.as_slice()) {
            Some(v) => return Some(v),
            None => {},
        },
        None => {},
    }
    match pe32 {
        Some(b) => version_of_resource(b.as_slice()),
        None => None,
    }
}

/// The version of a DLL: from its 64-bit version resource when it has one
/// that states a version, else from its 32-bit one. Bytes that do not begin
/// with an MS-DOS header have no version; a version returned is the one
/// stated by what pelite finds as the 64-bit or the 32-bit resource.
pub fn read_pe_version_bytes(bytes: &[u8]) -> (r: Option<String>)
    ensures
        !has_dos_header(bytes@) ==> r is None,
        exists|a: Option<Seq<u8>>, b: Option<Seq<u8>>|
            #![trigger version_from_resources_spec(a, b)]
            (a matches Some(x) ==> x == pe64_version_resource(bytes@))
            && (b matches Some(y) ==> y == pe32_version_resource(bytes@))
            && opt_view(r) == version_from_resources_spec(a, b),
        r is Some ==> exists|res: Seq<u8>| #[trigger] resource_version_spec(words_of(res)) == opt_view(r),
{
    let pe64 = pe64_version_resource_bytes(bytes);
    let pe32 = pe32_version_resource_bytes(bytes);
    let r = version_from_resources(&pe64, &pe32);
    proof {
        let a = opt_bytes_view(pe64);
        let b = opt_bytes_view(pe32);
        assert(opt_view(r) == version_from_resources_spec(a, b));
        if r is Some {
            if a is Some && resource_version_spec(words_of(a->0)) is Some {
                assert(resource_version_spec(words_of(a->0)) == opt_view(r));
            } else {
                assert(resource_version_spec(words_of(b->0)) == opt_view(r));
            }
        }
    }
    r
}

} // verus!
