//! Mod profiles: the built-in Vanilla and account profiles plus the user's
//! own, which one is active, and what each allows.
use vstd::prelude::*;

use crate::mod_folder::{is_valid_install_folder_name, parse_folder_spec};
use crate::mod_install::{is_install_entry, DirEntryInfo};
use crate::number::dec_seq;
use crate::paths::{join_path, join_path_spec};
use crate::text::{append_all, chars_eq, chars_of, opt_view, own, string_of, trim, trim_seq};

verus! {

pub const PROFILES_STORE_PATH: &'static str = "modkist-profiles.json";

pub const VANILLA_PROFILE_ID: &'static str = "vanilla";

pub const USER_PROFILE_ID: &'static str = "user";

pub const BEPINEX_PLUGINS: &'static str = "BepInEx/plugins";

pub const PROFILE_ARCHIVES_DIR: &'static str = "profiles";

pub const MODS_DIR: &'static str = "Mods";

pub const BLUEPRINTS_DIR: &'static str = "Blueprints";

pub const IMPORTED_PROFILE_NAME: &'static str = "Imported mods";

pub const DEFAULT_USER_PROFILE_NAME: &'static str = "My account";

#[derive(PartialEq, Eq, Structural, Clone, Copy, Debug)]
pub enum ProfileKind {
    Vanilla,
    User,
    Custom,
}

/// A profile as stored.
pub struct StoredProfile {
    pub id: String,
    pub name: String,
    pub kind: ProfileKind,
}

/// Everything stored about profiles.
pub struct ProfileStoreData {
    pub profiles: Vec<StoredProfile>,
    pub active_profile_id: String,
    pub migrated: bool,
    pub archives_migrated: bool,
}

/// A profile as listed for the user.
pub struct ProfileSummary {
    pub id: String,
    pub name: String,
    pub kind: ProfileKind,
    pub install_blocked: bool,
    pub is_active: bool,
    pub selectable: bool,
}

pub struct ProfileListResult {
    pub profiles: Vec<ProfileSummary>,
    pub active_profile_id: String,
}

/// The active profile and whether installing is allowed in it.
pub struct ActiveProfileInfo {
    pub id: String,
    pub name: String,
    pub kind: ProfileKind,
    pub install_blocked: bool,
}

/// A stored profile as plain values: id, name, kind.
pub open spec fn profile_view(p: StoredProfile) -> (Seq<char>, Seq<char>, ProfileKind) {
    (p.id@, p.name@, p.kind)
}

pub open spec fn profiles_view(ps: Seq<StoredProfile>) -> Seq<(Seq<char>, Seq<char>, ProfileKind)> {
    ps.map_values(|p: StoredProfile| profile_view(p))
}

pub open spec fn has_profile_id(ps: Seq<(Seq<char>, Seq<char>, ProfileKind)>, id: Seq<char>) -> bool {
    exists|i: int| 0 <= i < ps.len() && (#[trigger] ps[i]).0 == id
}

pub open spec fn vanilla_view() -> (Seq<char>, Seq<char>, ProfileKind) {
    (VANILLA_PROFILE_ID@, "Vanilla"@, ProfileKind::Vanilla)
}

pub open spec fn user_view(username: Option<Seq<char>>) -> (Seq<char>, Seq<char>, ProfileKind) {
    (USER_PROFILE_ID@, match username {
        Some(u) => u,
        None => DEFAULT_USER_PROFILE_NAME@,
    }, ProfileKind::User)
}

fn vanilla_profile() -> (r: StoredProfile)
    ensures
        profile_view(r) == vanilla_view(),
{
    StoredProfile { id: own(VANILLA_PROFILE_ID), name: own("Vanilla"), kind: ProfileKind::Vanilla }
}

fn user_profile(username: Option<&str>) -> (r: StoredProfile)
    ensures
        profile_view(r) == user_view(
            match username {
                Some(u) => Some(u@),
                None => None,
            },
        ),
{
    StoredProfile {
        id: own(USER_PROFILE_ID),
        name: match username {
            Some(u) => own(u),
            None => own(DEFAULT_USER_PROFILE_NAME),
        },
        kind: ProfileKind::User,
    }
}

pub open spec fn str_opt(o: Option<&str>) -> Option<Seq<char>> {
    match o {
        Some(s) => Some(s@),
        None => None,
    }
}

/// The Vanilla profile, then the account profile named after the user.
pub fn default_builtin_profiles(username: Option<&str>) -> (r: Vec<StoredProfile>)
    ensures
        profiles_view(r@) == seq![vanilla_view(), user_view(str_opt(username))],
{
    let mut v: Vec<StoredProfile> = Vec::new();
    v.push(vanilla_profile());
    v.push(user_profile(username));
    assert(profiles_view(v@) =~= seq![vanilla_view(), user_view(str_opt(username))]);
    v
}

fn find_profile(profiles: &Vec<StoredProfile>, id: &str) -> (r: Option<usize>)
    ensures
        match r {
            Some(i) => i < profiles@.len() && profiles@[i as int].id@ == id@ && forall|j: int|
                0 <= j < i ==> profiles@[j].id@ != id@,
            None => !has_profile_id(profiles_view(profiles@), id@),
        },
{
    let want = chars_of(id);
    let mut i: usize = 0;
    while i < profiles.len()
        invariant
            i <= profiles.len(),
            want@ == id@,
            forall|j: int| 0 <= j < i ==> profiles@[j].id@ != id@,
        decreases profiles.len() - i,
    {
        if chars_eq(&chars_of(profiles[i].id.as_str()), &want) {
            return Some(i);
        }
        i = i + 1;
    }
    assert(!has_profile_id(profiles_view(profiles@), id@)) by {
        if has_profile_id(profiles_view(profiles@), id@) {
            let k = choose|k: int| 0 <= k < profiles_view(profiles@).len() && (#[trigger] profiles_view(
                profiles@,
            )[k]).0 == id@;
            assert(profiles@[k].id@ == id@);
        }
    }
    None
}

/// The first index holding a profile with this id.
pub open spec fn first_index_of(ps: Seq<(Seq<char>, Seq<char>, ProfileKind)>, id: Seq<char>) -> int
    decreases ps.len(),
{
    if ps.len() == 0 {
        0
    } else if ps[0].0 == id {
        0
    } else {
        1 + first_index_of(ps.skip(1), id)
    }
}

/// The profiles after the built-ins are ensured: an empty list becomes the
/// two defaults; otherwise a missing Vanilla profile is put first and a
/// missing account profile second, and the account profile takes the
/// user's name when one is known.
pub open spec fn ensured_profiles(
    ps: Seq<(Seq<char>, Seq<char>, ProfileKind)>,
    username: Option<Seq<char>>,
) -> Seq<(Seq<char>, Seq<char>, ProfileKind)> {
    if ps.len() == 0 {
        seq![vanilla_view(), user_view(username)]
    } else {
        let p1 = if has_profile_id(ps, VANILLA_PROFILE_ID@) {
            ps
        } else {
            seq![vanilla_view()] + ps
        };
        let p2 = if has_profile_id(ps, USER_PROFILE_ID@) {
            p1
        } else {
            p1.insert(1, user_view(username))
        };
        match username {
            Some(u) => {
                let k = first_index_of(p2, USER_PROFILE_ID@);
                p2.update(k, (p2[k].0, u, p2[k].2))
            },
            None => p2,
        }
    }
}

proof fn lemma_first_index_of(ps: Seq<(Seq<char>, Seq<char>, ProfileKind)>, id: Seq<char>, i: int)
    requires
        0 <= i < ps.len(),
        ps[i].0 == id,
        forall|j: int| 0 <= j < i ==> ps[j].0 != id,
    ensures
        first_index_of(ps, id) == i,
    decreases i,
{
    if i > 0 {
        assert(ps[0].0 != id);
        lemma_first_index_of(ps.skip(1), id, i - 1);
    }
}

/// Adds the built-in profiles that are missing (see `ensured_profiles`);
/// an empty active id becomes Vanilla when the list was empty.
#[verifier::rlimit(60)]
pub fn ensure_builtin_profiles(data: &mut ProfileStoreData, username: Option<&str>)
    ensures
        profiles_view(final(data).profiles@) == ensured_profiles(
            profiles_view(old(data).profiles@),
            str_opt(username),
        ),
        has_profile_id(profiles_view(final(data).profiles@), VANILLA_PROFILE_ID@),
        has_profile_id(profiles_view(final(data).profiles@), USER_PROFILE_ID@),
        (old(data).profiles@.len() == 0 && old(data).active_profile_id@.len() == 0)
            ==> final(data).active_profile_id@ == VANILLA_PROFILE_ID@,
        !(old(data).profiles@.len() == 0 && old(data).active_profile_id@.len() == 0)
            ==> final(data).active_profile_id == old(data).active_profile_id,
        final(data).migrated == old(data).migrated,
        final(data).archives_migrated == old(data).archives_migrated,
{
    let ghost ps0 = profiles_view(data.profiles@);
    if data.profiles.len() == 0 {
        data.profiles = default_builtin_profiles(username);
        if data.active_profile_id.as_str().is_empty() {
            data.active_profile_id = own(VANILLA_PROFILE_ID);
        }
        proof {
            let ps = profiles_view(data.profiles@);
            assert(ps[0].0 == VANILLA_PROFILE_ID@);
            assert(ps[1].0 == USER_PROFILE_ID@);
        }
        return ;
    }
    let has_vanilla = find_profile(&data.profiles, VANILLA_PROFILE_ID).is_some();
    let has_user = find_profile(&data.profiles, USER_PROFILE_ID).is_some();
    proof {
        if has_vanilla {
            assert(has_profile_id(ps0, VANILLA_PROFILE_ID@)) by {
                let i = choose|i: int| 0 <= i < data.profiles@.len() && data.profiles@[i].id@ == VANILLA_PROFILE_ID@;
                assert(ps0[i].0 == VANILLA_PROFILE_ID@);
            }
        }
        if has_user {
            assert(has_profile_id(ps0, USER_PROFILE_ID@)) by {
                let i = choose|i: int| 0 <= i < data.profiles@.len() && data.profiles@[i].id@ == USER_PROFILE_ID@;
                assert(ps0[i].0 == USER_PROFILE_ID@);
            }
        }
    }
    if !has_vanilla {
        data.profiles.insert(0, vanilla_profile());
        assert(profiles_view(data.profiles@) =~= seq![vanilla_view()] + ps0);
    }
    let ghost ps1 = profiles_view(data.profiles@);
    if !has_user {
        data.profiles.insert(1, user_profile(username));
        assert(profiles_view(data.profiles@) =~= ps1.insert(1, user_view(str_opt(username))));
    }
    let ghost ps2 = profiles_view(data.profiles@);
    proof {
        assert(has_profile_id(ps2, VANILLA_PROFILE_ID@)) by {
            if has_vanilla {
                let i = choose|i: int| 0 <= i < ps0.len() && (#[trigger] ps0[i]).0 == VANILLA_PROFILE_ID@;
                assert(ps1[i].0 == VANILLA_PROFILE_ID@);
                if !has_user {
                    if i < 1 {
                        assert(ps2[i] == ps1[i]);
                    } else {
                        assert(ps2[i + 1] == ps1[i]);
                    }
                }
            } else {
                assert(ps1[0].0 == VANILLA_PROFILE_ID@);
                assert(ps2[0] == ps1[0]);
            }
        }
        assert(has_profile_id(ps2, USER_PROFILE_ID@)) by {
            if has_user {
                let i = choose|i: int| 0 <= i < ps0.len() && (#[trigger] ps0[i]).0 == USER_PROFILE_ID@;
                if has_vanilla {
                    assert(ps1[i] == ps0[i]);
                    assert(ps2[i].0 == USER_PROFILE_ID@);
                } else {
                    assert(ps1[i + 1] == ps0[i]);
                    assert(ps2[i + 1].0 == USER_PROFILE_ID@);
                }
            } else {
                assert(ps2[1].0 == USER_PROFILE_ID@);
            }
        }
    }
    match username {
        Some(u) => {
            match find_profile(&data.profiles, USER_PROFILE_ID) {
                Some(k) => {
                    proof {
                        lemma_first_index_of(ps2, USER_PROFILE_ID@, k as int);
                    }
                    let old_p = data.profiles.remove(k);
                    let StoredProfile { id, name: _, kind } = old_p;
                    data.profiles.insert(k, StoredProfile { id, name: own(u), kind });
                    assert(profiles_view(data.profiles@) =~= ps2.update(
                        k as int,
                        (ps2[k as int].0, u@, ps2[k as int].2),
                    ));
                    proof {
                        let ps3 = profiles_view(data.profiles@);
                        assert(ps3[k as int].0 == USER_PROFILE_ID@);
                        let i = choose|i: int| 0 <= i < ps2.len() && (#[trigger] ps2[i]).0 == VANILLA_PROFILE_ID@;
                        assert(ps3[i].0 == VANILLA_PROFILE_ID@);
                    }
                },
                None => {},
            }
        },
        None => {},
    }
}

/// The profile with this id, if any.
pub fn profile_by_id<'a>(data: &'a ProfileStoreData, profile_id: &str) -> (r: Option<&'a StoredProfile>)
    ensures
        match r {
            Some(p) => has_profile_id(profiles_view(data.profiles@), profile_id@) && *p
                == data.profiles@[first_index_of(profiles_view(data.profiles@), profile_id@)],
            None => !has_profile_id(profiles_view(data.profiles@), profile_id@),
        },
{
    match find_profile(&data.profiles, profile_id) {
        Some(i) => {
            proof {
                lemma_first_index_of(profiles_view(data.profiles@), profile_id@, i as int);
                assert(profiles_view(data.profiles@)[i as int].0 == profile_id@);
            }
            Some(&data.profiles[i])
        },
        None => None,
    }
}

/// Installing mods is disabled on the Vanilla profile.
pub fn install_blocked_for(profile: &StoredProfile) -> (r: bool)
    ensures
        r == (profile.kind == ProfileKind::Vanilla),
{
    profile.kind == ProfileKind::Vanilla
}

/// The profile as listed: the account profile can be chosen only when
/// logged in.
pub fn to_summary(profile: &StoredProfile, active_profile_id: &str, logged_in: bool) -> (r:
    ProfileSummary)
    ensures
        r.id@ == profile.id@,
        r.name@ == profile.name@,
        r.kind == profile.kind,
        r.install_blocked == (profile.kind == ProfileKind::Vanilla),
        r.is_active == (profile.id@ == active_profile_id@),
        r.selectable == (profile.kind != ProfileKind::User || logged_in),
{
    let selectable = profile.kind != ProfileKind::User || logged_in;
    ProfileSummary {
        id: own(profile.id.as_str()),
        name: own(profile.name.as_str()),
        kind: profile.kind,
        install_blocked: install_blocked_for(profile),
        is_active: chars_eq(&chars_of(profile.id.as_str()), &chars_of(active_profile_id)),
        selectable,
    }
}

/// All profiles as listed, with the active id.
pub fn profile_list(data: &ProfileStoreData, logged_in: bool) -> (r: ProfileListResult)
    ensures
        r.active_profile_id@ == data.active_profile_id@,
        r.profiles@.len() == data.profiles@.len(),
        forall|i: int|
            0 <= i < r.profiles@.len() ==> {
                let s = #[trigger] r.profiles@[i];
                let p = data.profiles@[i];
                &&& s.id@ == p.id@
                &&& s.name@ == p.name@
                &&& s.kind == p.kind
                &&& s.install_blocked == (p.kind == ProfileKind::Vanilla)
                &&& s.is_active == (p.id@ == data.active_profile_id@)
                &&& s.selectable == (p.kind != ProfileKind::User || logged_in)
            },
{
    let mut profiles: Vec<ProfileSummary> = Vec::new();
    let mut i: usize = 0;
    while i < data.profiles.len()
        invariant
            i <= data.profiles.len(),
            profiles@.len() == i,
            forall|k: int|
                0 <= k < i ==> {
                    let s = #[trigger] profiles@[k];
                    let p = data.profiles@[k];
                    &&& s.id@ == p.id@
                    &&& s.name@ == p.name@
                    &&& s.kind == p.kind
                    &&& s.install_blocked == (p.kind == ProfileKind::Vanilla)
                    &&& s.is_active == (p.id@ == data.active_profile_id@)
                    &&& s.selectable == (p.kind != ProfileKind::User || logged_in)
                },
        decreases data.profiles.len() - i,
    {
        profiles.push(to_summary(&data.profiles[i], data.active_profile_id.as_str(), logged_in));
        i = i + 1;
    }
    ProfileListResult { profiles, active_profile_id: own(data.active_profile_id.as_str()) }
}

/// The active profile, or the error for an active id that names none.
pub fn active_profile_info(data: &ProfileStoreData) -> (r: Result<ActiveProfileInfo, String>)
    ensures
        has_profile_id(profiles_view(data.profiles@), data.active_profile_id@) ==> (r matches Ok(info)
            && {
            let p = data.profiles@[first_index_of(
                profiles_view(data.profiles@),
                data.active_profile_id@,
            )];
            &&& info.id@ == p.id@
            &&& info.name@ == p.name@
            &&& info.kind == p.kind
            &&& info.install_blocked == (p.kind == ProfileKind::Vanilla)
        }),
        !has_profile_id(profiles_view(data.profiles@), data.active_profile_id@) ==> (r matches Err(m)
            && m@ == "Active profile "@ + data.active_profile_id@ + " is not configured."@),
{
    match profile_by_id(data, data.active_profile_id.as_str()) {
        Some(p) => Ok(
            ActiveProfileInfo {
                id: own(p.id.as_str()),
                name: own(p.name.as_str()),
                kind: p.kind,
                install_blocked: install_blocked_for(p),
            },
        ),
        None => {
            let mut m = chars_of("Active profile ");
            append_all(&mut m, &chars_of(data.active_profile_id.as_str()));
            append_all(&mut m, &chars_of(" is not configured."));
            Err(string_of(&m))
        },
    }
}

/// The stored active id, or Vanilla when none (or an empty one) is stored.
pub fn active_id_or_default(stored: Option<String>) -> (r: String)
    ensures
        r@ == (match opt_view(stored) {
            Some(s) => if s.len() > 0 {
                s
            } else {
                VANILLA_PROFILE_ID@
            },
            None => VANILLA_PROFILE_ID@,
        }),
{
    match stored {
        Some(s) => if s.as_str().is_empty() {
            own(VANILLA_PROFILE_ID)
        } else {
            s
        },
        None => own(VANILLA_PROFILE_ID),
    }
}

/// Logging out needs another profile chosen when the account profile is active.
pub fn logout_requires_profile_selection(logged_in: bool, active_kind: ProfileKind) -> (r: bool)
    ensures
        r == (logged_in && active_kind == ProfileKind::User),
{
    logged_in && active_kind == ProfileKind::User
}

// ---------------------------------------------------------------------------
// Profile edits
// ---------------------------------------------------------------------------

pub open spec fn has_profile_name(ps: Seq<(Seq<char>, Seq<char>, ProfileKind)>, name: Seq<char>) -> bool {
    exists|i: int| 0 <= i < ps.len() && (#[trigger] ps[i]).1 == name
}

fn find_name(profiles: &Vec<StoredProfile>, name: &Vec<char>, except_id: Option<&str>) -> (r: bool)
    ensures
        r == exists|i: int|
            0 <= i < profiles@.len() && (#[trigger] profiles@[i]).name@ == name@ && match except_id {
                Some(e) => profiles@[i].id@ != e@,
                None => true,
            },
{
    let mut i: usize = 0;
    while i < profiles.len()
        invariant
            i <= profiles.len(),
            forall|j: int|
                0 <= j < i ==> !((#[trigger] profiles@[j]).name@ == name@ && match except_id {
                    Some(e) => profiles@[j].id@ != e@,
                    None => true,
                }),
        decreases profiles.len() - i,
    {
        let other = match except_id {
            Some(e) => !chars_eq(&chars_of(profiles[i].id.as_str()), &chars_of(e)),
            None => true,
        };
        if other && chars_eq(&chars_of(profiles[i].name.as_str()), name) {
            return true;
        }
        i = i + 1;
    }
    false
}

/// `custom-<nanoseconds>`, the id of a profile the user creates.
pub fn new_custom_profile_id(nanos: u64) -> (r: String)
    ensures
        r@ == "custom-"@ + dec_seq(nanos as nat),
{
    let mut v = chars_of("custom-");
    append_all(&mut v, &crate::number::u64_to_dec(nanos));
    string_of(&v)
}

/// Creates a custom profile named by the trimmed `name`, refusing a blank
/// name or one already used.
pub fn create_profile(data: &mut ProfileStoreData, id: String, name: &str) -> (r: Result<usize, String>)
    ensures
        trim_seq(name@).len() == 0 ==> (r matches Err(m) && m@ == "Enter a profile name."@
            && *final(data) == *old(data)),
        trim_seq(name@).len() > 0 && has_profile_name(profiles_view(old(data).profiles@), trim_seq(name@))
            ==> (r matches Err(m) && m@ == "A profile with this name already exists."@ && *final(data)
            == *old(data)),
        trim_seq(name@).len() > 0 && !has_profile_name(profiles_view(old(data).profiles@), trim_seq(name@))
            ==> (r matches Ok(i) && i == old(data).profiles@.len() && profiles_view(final(data).profiles@)
            == profiles_view(old(data).profiles@).push((id@, trim_seq(name@), ProfileKind::Custom))
            && final(data).active_profile_id == old(data).active_profile_id),
{
    let trimmed = trim(&chars_of(name));
    if trimmed.len() == 0 {
        return Err(own("Enter a profile name."));
    }
    if find_name(&data.profiles, &trimmed, None) {
        proof {
            let i = choose|i: int| 0 <= i < data.profiles@.len() && (#[trigger] data.profiles@[i]).name@ == trimmed@;
            assert(profiles_view(data.profiles@)[i].1 == trimmed@);
        }
        return Err(own("A profile with this name already exists."));
    }
    proof {
        if has_profile_name(profiles_view(data.profiles@), trimmed@) {
            let i = choose|i: int| 0 <= i < profiles_view(data.profiles@).len() && (#[trigger] profiles_view(data.profiles@)[i]).1 == trimmed@;
            assert(data.profiles@[i].name@ == trimmed@);
        }
    }
    let ghost before = profiles_view(data.profiles@);
    let index = data.profiles.len();
    data.profiles.push(StoredProfile { id, name: string_of(&trimmed), kind: ProfileKind::Custom });
    assert(profiles_view(data.profiles@) =~= before.push((id@, trimmed@, ProfileKind::Custom)));
    Ok(index)
}

/// Deletes a custom profile that is not active; returns its name.
pub fn delete_profile(data: &mut ProfileStoreData, profile_id: &str) -> (r: Result<String, String>)
    ensures
        !has_profile_id(profiles_view(old(data).profiles@), trim_seq(profile_id@)) ==> (r matches Err(m)
            && m@ == "Profile "@ + trim_seq(profile_id@) + " does not exist."@),
        has_profile_id(profiles_view(old(data).profiles@), trim_seq(profile_id@)) ==> {
            let p = old(data).profiles@[first_index_of(
                profiles_view(old(data).profiles@),
                trim_seq(profile_id@),
            )];
            &&& p.kind != ProfileKind::Custom ==> (r matches Err(m) && m@
                == "Built-in profiles cannot be deleted."@)
            &&& (p.kind == ProfileKind::Custom && old(data).active_profile_id@ == trim_seq(profile_id@))
                ==> (r matches Err(m) && m@ == "Switch to another profile before deleting this one."@)
            &&& (p.kind == ProfileKind::Custom && old(data).active_profile_id@ != trim_seq(profile_id@))
                ==> (r matches Ok(n) && n@ == p.name@ && profiles_view(final(data).profiles@)
                == profiles_view(old(data).profiles@).filter(
                |q: (Seq<char>, Seq<char>, ProfileKind)| q.0 != trim_seq(profile_id@),
            ))
        },
        r is Err ==> *final(data) == *old(data),
        final(data).active_profile_id == old(data).active_profile_id,
{
    let id = trim(&chars_of(profile_id));
    let id_s = string_of(&id);
    let (kind, name) = match profile_by_id(data, id_s.as_str()) {
        Some(p) => (p.kind, own(p.name.as_str())),
        None => {
            let mut m = chars_of("Profile ");
            append_all(&mut m, &id);
            append_all(&mut m, &chars_of(" does not exist."));
            return Err(string_of(&m));
        },
    };
    if kind != ProfileKind::Custom {
        return Err(own("Built-in profiles cannot be deleted."));
    }
    if chars_eq(&chars_of(data.active_profile_id.as_str()), &id) {
        return Err(own("Switch to another profile before deleting this one."));
    }
    let ghost pv = profiles_view(data.profiles@);
    let ghost pred = |q: (Seq<char>, Seq<char>, ProfileKind)| q.0 != id@;
    let ghost orig = data.profiles@;
    let mut kept: Vec<StoredProfile> = Vec::new();
    let mut src = Vec::new();
    std::mem::swap(&mut src, &mut data.profiles);
    let mut k: usize = 0;
    let total = src.len();
    proof {
        reveal(Seq::filter);
    }
    assert(pv.take(0) =~= Seq::<(Seq<char>, Seq<char>, ProfileKind)>::empty());
    assert(profiles_view(kept@) =~= Seq::<(Seq<char>, Seq<char>, ProfileKind)>::empty());
    while src.len() > 0
        invariant
            k + src@.len() == total,
            total == orig.len(),
            src@ == orig.skip(k as int),
            pv == profiles_view(orig),
            pred == (|q: (Seq<char>, Seq<char>, ProfileKind)| q.0 != id@),
            profiles_view(kept@) == pv.take(k as int).filter(pred),
        decreases src.len(),
    {
        let ghost s0 = src@;
        let x = src.remove(0);
        assert(x == orig[k as int]);
        proof {
            assert(pv.take(k + 1) =~= pv.take(k as int).push(pv[k as int]));
            pv.take(k as int).lemma_filter_push(pv[k as int], pred);
        }
        if !chars_eq(&chars_of(x.id.as_str()), &id) {
            let ghost before = profiles_view(kept@);
            kept.push(x);
            assert(profiles_view(kept@) =~= before.push(profile_view(orig[k as int])));
        }
        k = k + 1;
        assert(src@ =~= orig.skip(k as int));
    }
    assert(pv.take(k as int) =~= pv);
    assert(pred =~= (|q: (Seq<char>, Seq<char>, ProfileKind)| q.0 != trim_seq(profile_id@)));
    data.profiles = kept;
    Ok(name)
}

/// Renames a custom profile to the trimmed `name`, refusing a blank name,
/// a built-in profile, or a name another profile uses; returns its index.
pub fn rename_profile(data: &mut ProfileStoreData, profile_id: &str, name: &str) -> (r: Result<
    usize,
    String,
>)
    ensures
        trim_seq(name@).len() == 0 ==> (r matches Err(m) && m@ == "Enter a profile name."@),
        trim_seq(name@).len() > 0 && !has_profile_id(profiles_view(old(data).profiles@), trim_seq(profile_id@))
            ==> (r matches Err(m) && m@ == "Profile "@ + trim_seq(profile_id@) + " does not exist."@),
        r is Err ==> *final(data) == *old(data),
        r matches Ok(i) ==> {
            &&& trim_seq(name@).len() > 0
            &&& i == first_index_of(profiles_view(old(data).profiles@), trim_seq(profile_id@))
            &&& i < old(data).profiles@.len()
            &&& old(data).profiles@[i as int].kind == ProfileKind::Custom
            &&& profiles_view(final(data).profiles@) == profiles_view(old(data).profiles@).update(
                i as int,
                (old(data).profiles@[i as int].id@, trim_seq(name@), ProfileKind::Custom),
            )
        },
        has_profile_id(profiles_view(old(data).profiles@), trim_seq(profile_id@)) && trim_seq(name@).len()
            > 0 ==> {
            let i = first_index_of(profiles_view(old(data).profiles@), trim_seq(profile_id@));
            let taken = exists|j: int|
                0 <= j < old(data).profiles@.len() && (#[trigger] old(data).profiles@[j]).name@ == trim_seq(
                    name@,
                ) && old(data).profiles@[j].id@ != trim_seq(profile_id@);
            &&& old(data).profiles@[i].kind != ProfileKind::Custom ==> (r matches Err(m) && m@
                == "Built-in profiles cannot be renamed."@)
            &&& (old(data).profiles@[i].kind == ProfileKind::Custom && taken) ==> (r matches Err(m) && m@
                == "A profile with this name already exists."@)
            &&& (old(data).profiles@[i].kind == ProfileKind::Custom && !taken) ==> r is Ok
        },
        final(data).active_profile_id == old(data).active_profile_id,
{
    let id = trim(&chars_of(profile_id));
    let trimmed = trim(&chars_of(name));
    if trimmed.len() == 0 {
        return Err(own("Enter a profile name."));
    }
    let id_s = string_of(&id);
    let i = match find_profile(&data.profiles, id_s.as_str()) {
        Some(i) => i,
        None => {
            let mut m = chars_of("Profile ");
            append_all(&mut m, &id);
            append_all(&mut m, &chars_of(" does not exist."));
            return Err(string_of(&m));
        },
    };
    proof {
        lemma_first_index_of(profiles_view(data.profiles@), id@, i as int);
        assert(profiles_view(data.profiles@)[i as int].0 == id@);
    }
    if data.profiles[i].kind != ProfileKind::Custom {
        return Err(own("Built-in profiles cannot be renamed."));
    }
    if find_name(&data.profiles, &trimmed, Some(id_s.as_str())) {
        return Err(own("A profile with this name already exists."));
    }
    let ghost before = profiles_view(data.profiles@);
    let old_p = data.profiles.remove(i);
    let StoredProfile { id: pid, name: _, kind } = old_p;
    data.profiles.insert(i, StoredProfile { id: pid, name: string_of(&trimmed), kind });
    assert(profiles_view(data.profiles@) =~= before.update(
        i as int,
        (before[i as int].0, trimmed@, ProfileKind::Custom),
    ));
    Ok(i)
}

/// Whether switching to `target` may go ahead: it must exist, and the
/// account profile needs a login. `Ok(None)` when it is already active.
pub fn switch_check(data: &ProfileStoreData, target_profile_id: &str, logged_in: bool) -> (r: Result<
    Option<usize>,
    String,
>)
    ensures
        data.active_profile_id@ == target_profile_id@ ==> r == Ok::<Option<usize>, String>(None),
        data.active_profile_id@ != target_profile_id@ && !has_profile_id(
            profiles_view(data.profiles@),
            target_profile_id@,
        ) ==> (r matches Err(m) && m@ == "Profile "@ + target_profile_id@ + " does not exist."@),
        data.active_profile_id@ != target_profile_id@ && has_profile_id(
            profiles_view(data.profiles@),
            target_profile_id@,
        ) ==> {
            let i = first_index_of(profiles_view(data.profiles@), target_profile_id@);
            &&& (data.profiles@[i].kind == ProfileKind::User && !logged_in) ==> (r matches Err(m) && m@
                == "Sign in to use your account profile."@)
            &&& !(data.profiles@[i].kind == ProfileKind::User && !logged_in) ==> r == Ok::<
                Option<usize>,
                String,
            >(Some(i as usize))
        },
{
    if chars_eq(&chars_of(data.active_profile_id.as_str()), &chars_of(target_profile_id)) {
        return Ok(None);
    }
    let i = match find_profile(&data.profiles, target_profile_id) {
        Some(i) => i,
        None => {
            let mut m = chars_of("Profile ");
            append_all(&mut m, &chars_of(target_profile_id));
            append_all(&mut m, &chars_of(" does not exist."));
            return Err(string_of(&m));
        },
    };
    proof {
        lemma_first_index_of(profiles_view(data.profiles@), target_profile_id@, i as int);
        assert(profiles_view(data.profiles@)[i as int].0 == target_profile_id@);
    }
    if data.profiles[i].kind == ProfileKind::User && !logged_in {
        return Err(own("Sign in to use your account profile."));
    }
    Ok(Some(i))
}

// ---------------------------------------------------------------------------
// Archive locations
// ---------------------------------------------------------------------------

/// `<game>/BepInEx/plugins/<Mods|Blueprints>`.
pub fn live_kind_dir(game_dir: &str, kind_dir_name: &str) -> (r: String)
    ensures
        r@ == join_path_spec(join_path_spec(game_dir@, BEPINEX_PLUGINS@), kind_dir_name@),
{
    let plugins = join_path(game_dir, BEPINEX_PLUGINS);
    join_path(plugins.as_str(), kind_dir_name)
}

/// `<game>/BepInEx/plugins/.modkist`, where older versions kept profiles.
pub fn legacy_modkist_dir(game_dir: &str) -> (r: String)
    ensures
        r@ == join_path_spec(join_path_spec(game_dir@, BEPINEX_PLUGINS@), ".modkist"@),
{
    let plugins = join_path(game_dir, BEPINEX_PLUGINS);
    join_path(plugins.as_str(), ".modkist")
}

pub fn legacy_profile_archives_root(game_dir: &str) -> (r: String)
    ensures
        r@ == join_path_spec(
            join_path_spec(join_path_spec(game_dir@, BEPINEX_PLUGINS@), ".modkist"@),
            "profiles"@,
        ),
{
    let d = legacy_modkist_dir(game_dir);
    join_path(d.as_str(), "profiles")
}

pub fn profile_archive_root_at(archives_root: &str, profile_id: &str) -> (r: String)
    ensures
        r@ == join_path_spec(archives_root@, profile_id@),
{
    join_path(archives_root, profile_id)
}

pub fn archive_kind_dir_at(archives_root: &str, profile_id: &str, kind_dir_name: &str) -> (r: String)
    ensures
        r@ == join_path_spec(join_path_spec(archives_root@, profile_id@), kind_dir_name@),
{
    let root = profile_archive_root_at(archives_root, profile_id);
    join_path(root.as_str(), kind_dir_name)
}

/// Only folders named like managed installs move with a profile.
pub fn is_valid_mod_folder_name(name: &str) -> (r: bool)
    ensures
        r == parse_folder_spec(name@) is Some,
{
    is_valid_install_folder_name(name)
}

/// The names of the entries of a kind folder that move with a profile: the
/// sub-directories named like managed installs, in listing order.
pub fn profile_folders(entries: &Vec<DirEntryInfo>) -> (r: Vec<String>)
    ensures
        r@.map_values(|n: String| n@) == entries@.filter(|e: DirEntryInfo| is_install_entry(e)).map_values(
            |e: DirEntryInfo| e.name@,
        ),
{
    let ghost pred = |e: DirEntryInfo| is_install_entry(e);
    let ghost nm = |e: DirEntryInfo| e.name@;
    let mut r: Vec<String> = Vec::new();
    let mut i: usize = 0;
    proof {
        reveal(Seq::filter);
    }
    assert(entries@.take(0) =~= Seq::<DirEntryInfo>::empty());
    assert(entries@.take(0).filter(pred).map_values(nm) =~= Seq::<Seq<char>>::empty());
    while i < entries.len()
        invariant
            i <= entries.len(),
            pred == (|e: DirEntryInfo| is_install_entry(e)),
            nm == (|e: DirEntryInfo| e.name@),
            r@.map_values(|n: String| n@) == entries@.take(i as int).filter(pred).map_values(nm),
        decreases entries.len() - i,
    {
        proof {
            assert(entries@.take(i + 1) =~= entries@.take(i as int).push(entries@[i as int]));
            entries@.take(i as int).lemma_filter_push(entries@[i as int], pred);
        }
        let ghost before = r@;
        if entries[i].is_dir && is_valid_mod_folder_name(entries[i].name.as_str()) {
            r.push(own(entries[i].name.as_str()));
            assert(r@.map_values(|n: String| n@) =~= before.map_values(|n: String| n@).push(
                entries@[i as int].name@,
            ));
            assert(entries@.take(i + 1).filter(pred).map_values(nm) =~= entries@.take(i as int).filter(
                pred,
            ).map_values(nm).push(entries@[i as int].name@));
        }
        i = i + 1;
    }
    assert(entries@.take(i as int) =~= entries@);
    r
}

/// Whether any entry of the live kind folders moves with a profile.
pub fn has_profile_folders(entries: &Vec<DirEntryInfo>) -> (r: bool)
    ensures
        r == exists|i: int| 0 <= i < entries@.len() && is_install_entry(#[trigger] entries@[i]),
{
    let mut i: usize = 0;
    while i < entries.len()
        invariant
            i <= entries.len(),
            forall|j: int| 0 <= j < i ==> !is_install_entry(#[trigger] entries@[j]),
        decreases entries.len() - i,
    {
        if entries[i].is_dir && is_valid_mod_folder_name(entries[i].name.as_str()) {
            assert(is_install_entry(entries@[i as int]));
            return true;
        }
        i = i + 1;
    }
    false
}

/// What the one-time migration to profiles does.
#[derive(PartialEq, Eq, Structural, Clone, Copy, Debug)]
pub enum MigrationStep {
    /// Already done, or no game directory to look at yet.
    Nothing,
    /// Mods are installed: they become a new custom profile, made active.
    ImportLiveMods,
    /// No mods are installed: Vanilla becomes active.
    StartVanilla,
}

pub fn migration_step(migrated: bool, game_dir_known: bool, live_has_mods: bool) -> (r: MigrationStep)
    ensures
        r == if migrated || !game_dir_known {
            MigrationStep::Nothing
        } else if live_has_mods {
            MigrationStep::ImportLiveMods
        } else {
            MigrationStep::StartVanilla
        },
{
    if migrated || !game_dir_known {
        MigrationStep::Nothing
    } else if live_has_mods {
        MigrationStep::ImportLiveMods
    } else {
        MigrationStep::StartVanilla
    }
}

/// Records the migration's outcome: with `Some(id)` a custom profile named
/// `Imported mods` is added under that id and made active; with `None`
/// Vanilla is made active. Either way the migration is marked done.
pub fn finish_migration(data: &mut ProfileStoreData, imported_profile_id: Option<String>)
    ensures
        final(data).migrated,
        final(data).archives_migrated == old(data).archives_migrated,
        match imported_profile_id {
            Some(id) => {
                &&& profiles_view(final(data).profiles@) == profiles_view(old(data).profiles@).push(
                    (id@, IMPORTED_PROFILE_NAME@, ProfileKind::Custom),
                )
                &&& final(data).active_profile_id@ == id@
            },
            None => {
                &&& profiles_view(final(data).profiles@) == profiles_view(old(data).profiles@)
                &&& final(data).active_profile_id@ == VANILLA_PROFILE_ID@
            },
        },
{
    match imported_profile_id {
        Some(id) => {
            let ghost before = profiles_view(data.profiles@);
            data.active_profile_id = own(id.as_str());
            data.profiles.push(
                StoredProfile { id, name: own(IMPORTED_PROFILE_NAME), kind: ProfileKind::Custom },
            );
            assert(profiles_view(data.profiles@) =~= before.push(
                (data.active_profile_id@, IMPORTED_PROFILE_NAME@, ProfileKind::Custom),
            ));
        },
        None => {
            data.active_profile_id = own(VANILLA_PROFILE_ID);
        },
    }
    data.migrated = true;
}

/// Makes the profile at `index` active and reports it.
pub fn activate_profile(data: &mut ProfileStoreData, index: usize) -> (r: ActiveProfileInfo)
    requires
        index < old(data).profiles@.len(),
    ensures
        final(data).profiles@ == old(data).profiles@,
        final(data).migrated == old(data).migrated,
        final(data).archives_migrated == old(data).archives_migrated,
        final(data).active_profile_id@ == old(data).profiles@[index as int].id@,
        r.id@ == old(data).profiles@[index as int].id@,
        r.name@ == old(data).profiles@[index as int].name@,
        r.kind == old(data).profiles@[index as int].kind,
        r.install_blocked == (old(data).profiles@[index as int].kind == ProfileKind::Vanilla),
{
    let p = &data.profiles[index];
    let info = ActiveProfileInfo {
        id: own(p.id.as_str()),
        name: own(p.name.as_str()),
        kind: p.kind,
        install_blocked: install_blocked_for(p),
    };
    data.active_profile_id = own(info.id.as_str());
    info
}

/// Some name of `v` is `x`.
pub open spec fn names_contain(v: Seq<String>, x: Seq<char>) -> bool {
    v.map_values(|s: String| s@).contains(x)
}

/// The profiles whose archives move to the app data folder: every stored
/// profile and every folder of the old archive location, each once.
pub fn archive_profile_ids(profiles: &Vec<StoredProfile>, legacy_folders: &Vec<String>) -> (r: Vec<String>)
    ensures
        r@.map_values(|x: String| x@).no_duplicates(),
        forall|id: Seq<char>|
            #[trigger] names_contain(r@, id) <==> (has_profile_id(profiles_view(profiles@), id)
                || names_contain(legacy_folders@, id)),
{
    let mut ids: Vec<String> = Vec::new();
    let mut i: usize = 0;
    while i < profiles.len()
        invariant
            i <= profiles.len(),
            ids@.map_values(|x: String| x@).no_duplicates(),
            forall|id: Seq<char>|
                #[trigger] names_contain(ids@, id) <==> has_profile_id(
                    profiles_view(profiles@.take(i as int)),
                    id,
                ),
        decreases profiles.len() - i,
    {
        add_unique_id(&mut ids, profiles[i].id.as_str());
        proof {
            let pv = profiles_view(profiles@.take(i + 1));
            let pv0 = profiles_view(profiles@.take(i as int));
            assert forall|id: Seq<char>| #[trigger] has_profile_id(pv, id) <==> (has_profile_id(pv0, id) || id
                == profiles@[i as int].id@) by {
                if has_profile_id(pv, id) {
                    let j = choose|j: int| 0 <= j < pv.len() && #[trigger] pv[j].0 == id;
                    if j < i {
                        assert(pv0[j].0 == id);
                    }
                }
                if has_profile_id(pv0, id) {
                    let j = choose|j: int| 0 <= j < pv0.len() && #[trigger] pv0[j].0 == id;
                    assert(pv[j].0 == id);
                }
                if id == profiles@[i as int].id@ {
                    assert(pv[i as int].0 == id);
                }
            }
        }
        i = i + 1;
    }
    assert(profiles@.take(i as int) =~= profiles@);
    let mut k: usize = 0;
    while k < legacy_folders.len()
        invariant
            k <= legacy_folders.len(),
            i == profiles.len(),
            profiles@.take(i as int) == profiles@,
            ids@.map_values(|x: String| x@).no_duplicates(),
            forall|id: Seq<char>|
                #[trigger] names_contain(ids@, id) <==> (has_profile_id(profiles_view(profiles@), id)
                    || names_contain(legacy_folders@.take(k as int), id)),
        decreases legacy_folders.len() - k,
    {
        add_unique_id(&mut ids, legacy_folders[k].as_str());
        proof {
            let lv = legacy_folders@.take(k + 1).map_values(|x: String| x@);
            let lv0 = legacy_folders@.take(k as int).map_values(|x: String| x@);
            assert(lv =~= lv0.push(legacy_folders@[k as int]@));
            assert forall|id: Seq<char>| #[trigger] lv.contains(id) <==> (lv0.contains(id) || id
                == legacy_folders@[k as int]@) by {
                if lv.contains(id) {
                    let j = choose|j: int| 0 <= j < lv.len() && lv[j] == id;
                    if j < k {
                        assert(lv0[j] == id);
                    }
                }
                if lv0.contains(id) {
                    let j = choose|j: int| 0 <= j < lv0.len() && lv0[j] == id;
                    assert(lv[j] == id);
                }
                if id == legacy_folders@[k as int]@ {
                    assert(lv[k as int] == id);
                }
            }
        }
        k = k + 1;
    }
    assert(legacy_folders@.take(k as int) =~= legacy_folders@);
    ids
}

/// Adds `id` unless it is there already.
fn add_unique_id(ids: &mut Vec<String>, id: &str)
    requires
        old(ids)@.map_values(|x: String| x@).no_duplicates(),
    ensures
        final(ids)@.map_values(|x: String| x@).no_duplicates(),
        forall|x: Seq<char>|
            #[trigger] names_contain(final(ids)@, x) <==> (names_contain(old(ids)@, x) || x == id@),
{
    let ghost before = ids@.map_values(|x: String| x@);
    let idc = chars_of(id);
    let mut j: usize = 0;
    while j < ids.len()
        invariant
            j <= ids.len(),
            before == ids@.map_values(|x: String| x@),
            before == old(ids)@.map_values(|x: String| x@),
            before.no_duplicates(),
            idc@ == id@,
            forall|k: int| 0 <= k < j ==> before[k] != id@,
        decreases ids.len() - j,
    {
        assert(before[j as int] == ids@[j as int]@);
        if chars_eq(&chars_of(ids[j].as_str()), &idc) {
            assert(before.contains(id@));
            return;
        }
        j = j + 1;
    }
    ids.push(own(id));
    let ghost after = ids@.map_values(|x: String| x@);
    assert(after =~= before.push(id@));
    assert forall|x: Seq<char>| #[trigger] names_contain(ids@, x) <==> (before.contains(x) || x == id@) by {
        if after.contains(x) {
            let w = choose|w: int| 0 <= w < after.len() && after[w] == x;
            if w < before.len() {
                assert(before[w] == x);
            }
        }
        if before.contains(x) {
            let w = choose|w: int| 0 <= w < before.len() && before[w] == x;
            assert(after[w] == x);
        }
        if x == id@ {
            assert(after[before.len() as int] == x);
        }
    }
}

/// With a fresh id, the profile pushed under it is the first the id finds.
proof fn lemma_fresh_id_found_last(
    ps: Seq<(Seq<char>, Seq<char>, ProfileKind)>,
    x: (Seq<char>, Seq<char>, ProfileKind),
)
    requires
        !has_profile_id(ps, x.0),
    ensures
        first_index_of(ps.push(x), x.0) == ps.len(),
    decreases ps.len(),
{
    if ps.len() > 0 {
        assert(ps[0].0 != x.0);
        assert(ps.push(x).skip(1) =~= ps.skip(1).push(x));
        assert(!has_profile_id(ps.skip(1), x.0)) by {
            if has_profile_id(ps.skip(1), x.0) {
                let i = choose|i: int| 0 <= i < ps.skip(1).len() && (#[trigger] ps.skip(1)[i]).0 == x.0;
                assert(ps[i + 1] == ps.skip(1)[i]);
            }
        }
        lemma_fresh_id_found_last(ps.skip(1), x);
    } else {
        assert(ps.push(x)[0] == x);
    }
}

/// Dropping the profiles with an id nobody has keeps them all.
proof fn lemma_filter_absent_id(ps: Seq<(Seq<char>, Seq<char>, ProfileKind)>, id: Seq<char>)
    requires
        !has_profile_id(ps, id),
    ensures
        ps.filter(|q: (Seq<char>, Seq<char>, ProfileKind)| q.0 != id) == ps,
    decreases ps.len(),
{
    let pred = |q: (Seq<char>, Seq<char>, ProfileKind)| q.0 != id;
    if ps.len() == 0 {
        assert(ps.filter(pred) =~= ps) by {
            reveal(Seq::filter);
        }
    } else {
        let init = ps.drop_last();
        assert(!has_profile_id(init, id)) by {
            if has_profile_id(init, id) {
                let i = choose|i: int| 0 <= i < init.len() && (#[trigger] init[i]).0 == id;
                assert(ps[i] == init[i]);
            }
        }
        lemma_filter_absent_id(init, id);
        assert(ps[ps.len() - 1].0 != id);
        init.lemma_filter_push(ps.last(), pred);
        assert(init.push(ps.last()) =~= ps);
    }
}

/// A profile created under a fresh id and then deleted leaves the profile
/// list as it was: the id finds the new profile, which is custom, and
/// deleting it removes only it.
pub proof fn lemma_create_then_delete(
    before: Seq<(Seq<char>, Seq<char>, ProfileKind)>,
    id: Seq<char>,
    name: Seq<char>,
)
    requires
        !has_profile_id(before, id),
    ensures
        ({
            let after = before.push((id, name, ProfileKind::Custom));
            &&& has_profile_id(after, id)
            &&& first_index_of(after, id) == before.len()
            &&& after[first_index_of(after, id)].2 == ProfileKind::Custom
            &&& after.filter(|q: (Seq<char>, Seq<char>, ProfileKind)| q.0 != id) == before
        }),
{
    let x = (id, name, ProfileKind::Custom);
    let after = before.push(x);
    let pred = |q: (Seq<char>, Seq<char>, ProfileKind)| q.0 != id;
    lemma_fresh_id_found_last(before, x);
    assert(after[before.len() as int] == x);
    lemma_filter_absent_id(before, id);
    before.lemma_filter_push(x, pred);
}

} // verus!
