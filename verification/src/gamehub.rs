//! GameHub for Mac: which of its game bindings are Zeepkist, where a
//! binding's game lives, and the winhttp DLL override of its containers.
use vstd::prelude::*;

use crate::game_launch::STEAM_APP_ID;
use crate::paths::{join_path, join_path_spec};
use crate::text::{
    append_all, chars_eq, chars_of, eq_ignore_case, find, first_char_index, first_occurrence,
    index_of_char, lemma_first_occurrence, lower_seq, occurs_at, opt_view, own, split, split_seq,
    string_of, subvec, trim, trim_end_seq, trim_seq, trim_start_seq,
};

verus! {

pub const OVERRIDE_VALUE: &'static str = "native,builtin";

/// A Zeepkist install registered in GameHub.
pub struct GameHubInstall {
    pub game_dir: String,
    pub prefix: String,
    pub wine: String,
    pub label: String,
    pub virtual_container_id: String,
}

/// A game binding of GameHub's container store.
pub struct Binding {
    pub game_name: Option<String>,
    pub platform_app_id: Option<String>,
    pub game_path: String,
    pub virtual_container_id: String,
    pub base_container_id: Option<String>,
}

/// The binding is Zeepkist: by Steam app id, or by name (any ASCII case).
pub open spec fn is_zeepkist_binding(b: Binding) -> bool {
    ||| opt_view(b.platform_app_id) == Some(STEAM_APP_ID@)
    ||| match opt_view(b.game_name) {
        Some(n) => lower_seq(n) == lower_seq("Zeepkist"@),
        None => false,
    }
}

pub fn binding_is_zeepkist(binding: &Binding) -> (r: bool)
    ensures
        r == is_zeepkist_binding(*binding),
{
    match &binding.platform_app_id {
        Some(id) => {
            if chars_eq(&chars_of(id.as_str()), &chars_of(STEAM_APP_ID)) {
                return true;
            }
        },
        None => {},
    }
    match &binding.game_name {
        Some(n) => eq_ignore_case(&chars_of(n.as_str()), &chars_of("Zeepkist")),
        None => false,
    }
}

/// The Zeepkist bindings of the store, in order; each is then resolved to an
/// install.
pub fn detect_zeepkist_installs(bindings: Vec<Binding>) -> (r: Vec<Binding>)
    ensures
        r@ == bindings@.filter(|b: Binding| is_zeepkist_binding(b)),
{
    let ghost orig = bindings@;
    let ghost pred = |b: Binding| is_zeepkist_binding(b);
    let total = bindings.len();
    let mut src = bindings;
    let mut out: Vec<Binding> = Vec::new();
    let mut k: usize = 0;
    proof {
        reveal(Seq::filter);
    }
    assert(orig.take(0) =~= Seq::<Binding>::empty());
    while src.len() > 0
        invariant
            k + src@.len() == total,
            total == orig.len(),
            src@ == orig.skip(k as int),
            pred == (|b: Binding| is_zeepkist_binding(b)),
            out@ == orig.take(k as int).filter(pred),
        decreases src.len(),
    {
        let x = src.remove(0);
        assert(x == orig[k as int]);
        proof {
            assert(orig.take(k + 1) =~= orig.take(k as int).push(orig[k as int]));
            orig.take(k as int).lemma_filter_push(orig[k as int], pred);
        }
        if binding_is_zeepkist(&x) {
            out.push(x);
        }
        k = k + 1;
        assert(src@ =~= orig.skip(k as int));
    }
    assert(orig.take(k as int) =~= orig);
    out
}

/// Position of the first canonical path equal to `target` (the length when
/// there is none).
pub open spec fn first_dir_match(dirs: Seq<Option<String>>, target: Seq<char>) -> int
    decreases dirs.len(),
{
    if dirs.len() == 0 {
        0
    } else if opt_view(dirs[0]) == Some(target) {
        0
    } else {
        1 + first_dir_match(dirs.skip(1), target)
    }
}

/// The install whose game directory is the given one, comparing canonical
/// paths (`None` where a path could not be resolved).
pub fn find_for_game_dir<'a>(
    installs: &'a Vec<GameHubInstall>,
    canonical_dirs: &Vec<Option<String>>,
    canonical_game_dir: &str,
) -> (r: Option<&'a GameHubInstall>)
    requires
        canonical_dirs@.len() == installs@.len(),
    ensures
        first_dir_match(canonical_dirs@, canonical_game_dir@) < installs@.len() ==> r == Some(
            &installs@[first_dir_match(canonical_dirs@, canonical_game_dir@)],
        ),
        first_dir_match(canonical_dirs@, canonical_game_dir@) >= installs@.len() ==> r is None,
{
    let ghost dv = canonical_dirs@;
    let target = chars_of(canonical_game_dir);
    let mut k: usize = 0;
    assert(dv.skip(0) =~= dv);
    while k < installs.len()
        invariant
            k <= installs.len(),
            dv == canonical_dirs@,
            dv.len() == installs@.len(),
            target@ == canonical_game_dir@,
            first_dir_match(dv, canonical_game_dir@) == k + first_dir_match(dv.skip(k as int), canonical_game_dir@),
        decreases installs.len() - k,
    {
        assert(dv.skip(k as int)[0] == dv[k as int]);
        assert(dv.skip(k as int).skip(1) =~= dv.skip(k + 1));
        let same = match &canonical_dirs[k] {
            Some(d) => chars_eq(&chars_of(d.as_str()), &target),
            None => false,
        };
        if same {
            assert(opt_view(dv[k as int]) == Some(canonical_game_dir@));
            return Some(&installs[k]);
        }
        k = k + 1;
    }
    assert(dv.skip(k as int) =~= Seq::<Option<String>>::empty());
    None
}

/// A DLL override value loads the native DLL: one of its comma-separated
/// parts is `native` (trimmed, any ASCII case).
pub open spec fn includes_native(value: Seq<char>) -> bool {
    exists|i: int|
        0 <= i < split_seq(value, ","@).len() && lower_seq(trim_seq(#[trigger] split_seq(value, ","@)[i]))
            == lower_seq("native"@)
}

pub fn override_includes_native(value: &str) -> (r: bool)
    ensures
        r == includes_native(value@),
{
    let comma = chars_of(",");
    proof {
        reveal_strlit(",");
    }
    let parts = split(&chars_of(value), &comma);
    let ghost pv = parts@.map_values(|x: Vec<char>| x@);
    assert(pv == split_seq(value@, ","@));
    let native = chars_of("native");
    let mut i: usize = 0;
    while i < parts.len()
        invariant
            i <= parts.len(),
            pv == parts@.map_values(|x: Vec<char>| x@),
            pv == split_seq(value@, ","@),
            native@ == "native"@,
            forall|j: int| 0 <= j < i ==> lower_seq(trim_seq(#[trigger] pv[j])) != lower_seq("native"@),
        decreases parts.len() - i,
    {
        assert(pv[i as int] == parts@[i as int]@);
        if eq_ignore_case(&trim(&parts[i]), &native) {
            return true;
        }
        i = i + 1;
    }
    false
}

/// Whether a container's override for one winhttp key must be (re)written:
/// when it is missing (or not text) or does not load the native DLL.
pub fn override_needs_update(current: &Option<String>) -> (r: bool)
    ensures
        r == (match opt_view(*current) {
            Some(v) => !includes_native(v),
            None => true,
        }),
{
    match current {
        Some(v) => !override_includes_native(v.as_str()),
        None => true,
    }
}

/// The keys under which a container's `dll_overrides` name winhttp.
pub const WINHTTP_KEY: &'static str = "winhttp";

pub const WINHTTP_WILDCARD_KEY: &'static str = "*winhttp";

/// A container's `dll_overrides` object: each key with its value when that
/// value is text (`None` for any other JSON value).
pub open spec fn overrides_view(entries: Seq<(String, Option<String>)>) -> Seq<(Seq<char>, Option<Seq<char>>)> {
    entries.map_values(|e: (String, Option<String>)| (e.0@, opt_view(e.1)))
}

/// No key occurs twice, as in a JSON object.
pub open spec fn unique_keys(s: Seq<(Seq<char>, Option<Seq<char>>)>) -> bool {
    forall|i: int, j: int| 0 <= i < s.len() && 0 <= j < s.len() && #[trigger] s[i].0 == #[trigger] s[j].0 ==> i == j
}

pub open spec fn has_key(s: Seq<(Seq<char>, Option<Seq<char>>)>, k: Seq<char>) -> bool {
    exists|i: int| 0 <= i < s.len() && #[trigger] s[i].0 == k
}

/// The value stored under `k`, if the key is present.
pub open spec fn lookup(s: Seq<(Seq<char>, Option<Seq<char>>)>, k: Seq<char>) -> Option<Option<Seq<char>>> {
    if has_key(s, k) {
        Some(s[choose|i: int| 0 <= i < s.len() && #[trigger] s[i].0 == k].1)
    } else {
        None
    }
}

/// An override must be written where the key is missing, holds no text, or
/// does not load the native DLL.
pub open spec fn entry_needs_update(current: Option<Option<Seq<char>>>) -> bool {
    match current {
        Some(Some(v)) => !includes_native(v),
        _ => true,
    }
}

pub proof fn lemma_lookup_at(s: Seq<(Seq<char>, Option<Seq<char>>)>, j: int)
    requires
        unique_keys(s),
        0 <= j < s.len(),
    ensures
        lookup(s, s[j].0) == Some(s[j].1),
{
    assert(has_key(s, s[j].0));
    let i = choose|i: int| 0 <= i < s.len() && #[trigger] s[i].0 == s[j].0;
    assert(s[i].0 == s[j].0);
}

/// Sets `key` to `native,builtin` when its override needs it; reports
/// whether anything changed.
fn set_winhttp_override(entries: &mut Vec<(String, Option<String>)>, key: &str) -> (changed: bool)
    requires
        unique_keys(overrides_view(old(entries)@)),
    ensures
        unique_keys(overrides_view(final(entries)@)),
        changed == entry_needs_update(lookup(overrides_view(old(entries)@), key@)),
        forall|k: Seq<char>|
            #[trigger] lookup(overrides_view(final(entries)@), k) == if k == key@ && changed {
                Some(Some(OVERRIDE_VALUE@))
            } else {
                lookup(overrides_view(old(entries)@), k)
            },
{
    let ghost old_v = overrides_view(entries@);
    let kc = chars_of(key);
    let mut i: usize = 0;
    while i < entries.len()
        invariant
            i <= entries.len(),
            old_v == overrides_view(entries@),
            old_v == overrides_view(old(entries)@),
            unique_keys(old_v),
            kc@ == key@,
            forall|j: int| 0 <= j < i ==> (#[trigger] old_v[j]).0 != key@,
        decreases entries.len() - i,
    {
        assert(old_v[i as int].0 == entries@[i as int].0@);
        assert(old_v[i as int].1 == opt_view(entries@[i as int].1));
        if chars_eq(&chars_of(entries[i].0.as_str()), &kc) {
            proof {
                lemma_lookup_at(old_v, i as int);
            }
            let needs = match &entries[i].1 {
                Some(v) => !override_includes_native(v.as_str()),
                None => true,
            };
            if needs {
                entries.set(i, (own(key), Some(own(OVERRIDE_VALUE))));
                let ghost new_v = overrides_view(entries@);
                assert(new_v =~= old_v.update(i as int, (key@, Some(OVERRIDE_VALUE@))));
                assert forall|j: int| 0 <= j < new_v.len() implies #[trigger] new_v[j].0 == old_v[j].0 by {}
                assert(unique_keys(new_v));
                assert forall|k: Seq<char>| #[trigger] lookup(new_v, k) == if k == key@ {
                    Some(Some(OVERRIDE_VALUE@))
                } else {
                    lookup(old_v, k)
                } by {
                    if k == key@ {
                        lemma_lookup_at(new_v, i as int);
                    } else if has_key(old_v, k) {
                        let j = choose|j: int| 0 <= j < old_v.len() && #[trigger] old_v[j].0 == k;
                        lemma_lookup_at(old_v, j);
                        assert(new_v[j] == old_v[j]);
                        lemma_lookup_at(new_v, j);
                    } else {
                        if has_key(new_v, k) {
                            let j = choose|j: int| 0 <= j < new_v.len() && #[trigger] new_v[j].0 == k;
                            assert(old_v[j].0 == k);
                        }
                    }
                }
            }
            return needs;
        }
        i = i + 1;
    }
    proof {
        if has_key(old_v, key@) {
            let j = choose|j: int| 0 <= j < old_v.len() && #[trigger] old_v[j].0 == key@;
            assert(old_v[j].0 != key@);
        }
    }
    entries.push((own(key), Some(own(OVERRIDE_VALUE))));
    let ghost new_v = overrides_view(entries@);
    assert(new_v =~= old_v.push((key@, Some(OVERRIDE_VALUE@))));
    let ghost n = old_v.len() as int;
    assert forall|k: Seq<char>| #[trigger] lookup(new_v, k) == if k == key@ {
        Some(Some(OVERRIDE_VALUE@))
    } else {
        lookup(old_v, k)
    } by {
        if k == key@ {
            lemma_lookup_at(new_v, n);
        } else if has_key(old_v, k) {
            let j = choose|j: int| 0 <= j < old_v.len() && #[trigger] old_v[j].0 == k;
            lemma_lookup_at(old_v, j);
            assert(new_v[j] == old_v[j]);
            lemma_lookup_at(new_v, j);
        } else {
            if has_key(new_v, k) {
                let j = choose|j: int| 0 <= j < new_v.len() && #[trigger] new_v[j].0 == k;
                if j < n {
                    assert(old_v[j].0 == k);
                }
            }
        }
    }
    true
}

/// `native,builtin` loads the native DLL.
pub proof fn lemma_override_value_includes_native()
    ensures
        includes_native(OVERRIDE_VALUE@),
{
    reveal_strlit("native,builtin");
    reveal_strlit(",");
    reveal_strlit("native");
    let s = OVERRIDE_VALUE@;
    assert(s.len() == 14);
    assert(occurs_at(s, ","@, 6)) by {
        assert(s.subrange(6, 7) =~= ","@);
    }
    assert forall|j: int| 0 <= j < 6 implies !occurs_at(s, ","@, j) by {
        assert(s.subrange(j, j + 1)[0] == s[j]);
    }
    lemma_first_occurrence(s, ","@, 6);
    let parts = split_seq(s, ","@);
    assert(parts[0] == s.take(6));
    assert(s.take(6) =~= "native"@);
    assert(trim_start_seq("native"@) == "native"@);
    assert(trim_end_seq("native"@) == "native"@);
    assert(lower_seq(trim_seq(parts[0])) == lower_seq("native"@));
}

/// Makes a container's `dll_overrides` load the native winhttp under both
/// of its keys; `true` when anything changed (and the file must be written).
pub fn ensure_winhttp_overrides(entries: &mut Vec<(String, Option<String>)>) -> (changed: bool)
    requires
        unique_keys(overrides_view(old(entries)@)),
    ensures
        unique_keys(overrides_view(final(entries)@)),
        changed == (entry_needs_update(lookup(overrides_view(old(entries)@), WINHTTP_KEY@))
            || entry_needs_update(lookup(overrides_view(old(entries)@), WINHTTP_WILDCARD_KEY@))),
        forall|k: Seq<char>|
            #[trigger] lookup(overrides_view(final(entries)@), k) == if (k == WINHTTP_KEY@
                || k == WINHTTP_WILDCARD_KEY@) && entry_needs_update(lookup(overrides_view(old(entries)@), k)) {
                Some(Some(OVERRIDE_VALUE@))
            } else {
                lookup(overrides_view(old(entries)@), k)
            },
        !entry_needs_update(lookup(overrides_view(final(entries)@), WINHTTP_KEY@)),
        !entry_needs_update(lookup(overrides_view(final(entries)@), WINHTTP_WILDCARD_KEY@)),
{
    proof {
        lemma_override_value_includes_native();
    }
    let ghost start = overrides_view(entries@);
    proof {
        reveal_strlit("winhttp");
        reveal_strlit("*winhttp");
    }
    assert(WINHTTP_KEY@ != WINHTTP_WILDCARD_KEY@) by {
        assert(WINHTTP_KEY@.len() != WINHTTP_WILDCARD_KEY@.len());
    }
    let a = set_winhttp_override(entries, WINHTTP_KEY);
    let ghost mid = overrides_view(entries@);
    assert(lookup(mid, WINHTTP_WILDCARD_KEY@) == lookup(start, WINHTTP_WILDCARD_KEY@));
    let b = set_winhttp_override(entries, WINHTTP_WILDCARD_KEY);
    assert(lookup(overrides_view(entries@), WINHTTP_KEY@) == lookup(mid, WINHTTP_KEY@));
    a || b
}

/// A container's `dll_overrides` as read from GameHub's virtual-container
/// configuration.
pub enum OverridesLookup {
    /// The configuration is not JSON (serde_json's message).
    Unparsable(String),
    /// `/virtual_containers/<id>` does not exist.
    NoContainer,
    /// The container is not a JSON object.
    ContainerNotObject,
    /// Its `dll_overrides` is there but not a JSON object.
    OverridesNotObject,
    /// Its overrides (none when `dll_overrides` is absent), each key with its
    /// value when that is text.
    Entries(Vec<(String, Option<String>)>),
}

pub enum LookupView {
    Unparsable(Seq<char>),
    NoContainer,
    ContainerNotObject,
    OverridesNotObject,
    Entries(Seq<(Seq<char>, Option<Seq<char>>)>),
}

pub open spec fn lookup_view(l: OverridesLookup) -> LookupView {
    match l {
        OverridesLookup::Unparsable(m) => LookupView::Unparsable(m@),
        OverridesLookup::NoContainer => LookupView::NoContainer,
        OverridesLookup::ContainerNotObject => LookupView::ContainerNotObject,
        OverridesLookup::OverridesNotObject => LookupView::OverridesNotObject,
        OverridesLookup::Entries(es) => LookupView::Entries(overrides_view(es@)),
    }
}

/// What serde_json reads from `config` for container `id`.
pub uninterp spec fn gamehub_overrides_in(config: Seq<char>, id: Seq<char>) -> LookupView;

/// `serde_json::from_str` into a `Value`, then `Value::pointer` to
/// `/virtual_containers/<id>`, `as_object`, and its `dll_overrides` entry's
/// `as_object`, each result turned into plain values. Claimed: the result is
/// a name of the text and the id, and the keys of a JSON object are
/// distinct.
#[verifier::external_body]
fn read_container_overrides(config: &str, id: &str) -> (r: OverridesLookup)
    ensures
        lookup_view(r) == gamehub_overrides_in(config@, id@),
        r matches OverridesLookup::Entries(es) ==> unique_keys(overrides_view(es@)),
{
    let root: serde_json::Value = match serde_json::from_str(config) {
        Ok(v) => v,
        Err(e) => return OverridesLookup::Unparsable(e.to_string()),
    };
    let Some(c) = root.pointer(&format!("/virtual_containers/{id}")) else { return OverridesLookup::NoContainer };
    let Some(obj) = c.as_object() else { return OverridesLookup::ContainerNotObject };
    match obj.get("dll_overrides").map(|o| o.as_object()) {
        None => OverridesLookup::Entries(Vec::new()),
        Some(None) => OverridesLookup::OverridesNotObject,
        Some(Some(m)) => OverridesLookup::Entries(m.iter().map(|(k, v)| (k.clone(), v.as_str().map(str::to_string))).collect()),
    }
}

pub open spec fn pairs_text(v: Seq<(String, String)>) -> Seq<(Seq<char>, Seq<char>)> {
    v.map_values(|p: (String, String)| (p.0@, p.1@))
}

pub open spec fn text_result(r: Result<String, String>) -> Result<Seq<char>, Seq<char>> {
    match r {
        Ok(t) => Ok(t@),
        Err(e) => Err(e@),
    }
}

/// The configuration serde_json writes after setting these overrides in
/// container `id` (or its error message).
pub uninterp spec fn gamehub_config_with(
    config: Seq<char>,
    id: Seq<char>,
    updates: Seq<(Seq<char>, Seq<char>)>,
) -> Result<Seq<char>, Seq<char>>;

/// Parses `config`, inserts each `(key, value)` into container `id`'s
/// `dll_overrides` (created if absent) and writes it with
/// `serde_json::to_string_pretty`. Claimed: the result is a name of its
/// arguments.
#[verifier::external_body]
fn write_container_overrides(config: &str, id: &str, updates: &Vec<(String, String)>) -> (r: Result<String, String>)
    ensures
        text_result(r) == gamehub_config_with(config@, id@, pairs_text(updates@)),
{
    let mut root: serde_json::Value = serde_json::from_str(config).map_err(|e| e.to_string())?;
    let c = root.pointer_mut(&format!("/virtual_containers/{id}")).ok_or_else(String::new)?;
    let o = c.as_object_mut().ok_or_else(String::new)?.entry("dll_overrides");
    let m = o.or_insert_with(|| serde_json::Value::Object(serde_json::Map::new())).as_object_mut().ok_or_else(String::new)?;
    for (k, v) in updates {
        m.insert(k.clone(), serde_json::Value::String(v.clone()));
    }
    serde_json::to_string_pretty(&root).map_err(|e| e.to_string())
}

/// The overrides to set: each of `winhttp` and `*winhttp` (in that order)
/// whose current value does not load the native DLL, to `native,builtin`.
pub open spec fn winhttp_updates(es: Seq<(Seq<char>, Option<Seq<char>>)>) -> Seq<(Seq<char>, Seq<char>)> {
    let a: Seq<(Seq<char>, Seq<char>)> = if entry_needs_update(lookup(es, WINHTTP_KEY@)) {
        seq![(WINHTTP_KEY@, OVERRIDE_VALUE@)]
    } else {
        Seq::empty()
    };
    let b: Seq<(Seq<char>, Seq<char>)> = if entry_needs_update(lookup(es, WINHTTP_WILDCARD_KEY@)) {
        seq![(WINHTTP_WILDCARD_KEY@, OVERRIDE_VALUE@)]
    } else {
        Seq::empty()
    };
    a + b
}

/// Sets the winhttp overrides of container `id` in GameHub's configuration
/// text `config` (read from `config_path`): the new text when something
/// changed, `None` when both overrides already load the native DLL, or the
/// error: unparsable text, a missing container, a container or
/// `dll_overrides` that is not an object, or a failed write-out.
pub fn gamehub_override_update(config_path: &str, config: &str, id: &str) -> (r: Result<Option<String>, String>)
    ensures
        match gamehub_overrides_in(config@, id@) {
            LookupView::Unparsable(e) => r matches Err(m) && m@ == "Could not parse "@ + config_path@ + ": "@ + e,
            LookupView::NoContainer => r matches Err(m) && m@ == "Virtual container "@ + id@
                + " not found in GameHub config"@,
            LookupView::ContainerNotObject => r matches Err(m) && m@ == "Invalid virtual container object"@,
            LookupView::OverridesNotObject => r matches Err(m) && m@ == "Invalid dll_overrides object"@,
            LookupView::Entries(es) => if winhttp_updates(es).len() == 0 {
                r matches Ok(None)
            } else {
                match gamehub_config_with(config@, id@, winhttp_updates(es)) {
                    Ok(t) => r matches Ok(Some(x)) && x@ == t,
                    Err(e) => r matches Err(m) && m@ == "Could not serialize GameHub dll_overrides: "@ + e,
                }
            },
        },
{
    match read_container_overrides(config, id) {
        OverridesLookup::Unparsable(e) => {
            let mut m = chars_of("Could not parse ");
            append_all(&mut m, &chars_of(config_path));
            append_all(&mut m, &chars_of(": "));
            append_all(&mut m, &chars_of(e.as_str()));
            Err(string_of(&m))
        },
        OverridesLookup::NoContainer => {
            let mut m = chars_of("Virtual container ");
            append_all(&mut m, &chars_of(id));
            append_all(&mut m, &chars_of(" not found in GameHub config"));
            Err(string_of(&m))
        },
        OverridesLookup::ContainerNotObject => Err(own("Invalid virtual container object")),
        OverridesLookup::OverridesNotObject => Err(own("Invalid dll_overrides object")),
        OverridesLookup::Entries(es) => {
            let ghost ev = overrides_view(es@);
            let mut work = es;
            proof {
                reveal_strlit("winhttp");
                reveal_strlit("*winhttp");
            }
            assert(WINHTTP_KEY@ != WINHTTP_WILDCARD_KEY@) by {
                assert(WINHTTP_KEY@.len() != WINHTTP_WILDCARD_KEY@.len());
            }
            let a = set_winhttp_override(&mut work, WINHTTP_KEY);
            let ghost mid = overrides_view(work@);
            assert(lookup(mid, WINHTTP_WILDCARD_KEY@) == lookup(ev, WINHTTP_WILDCARD_KEY@));
            let b = set_winhttp_override(&mut work, WINHTTP_WILDCARD_KEY);
            let mut updates: Vec<(String, String)> = Vec::new();
            if a {
                updates.push((own(WINHTTP_KEY), own(OVERRIDE_VALUE)));
            }
            if b {
                updates.push((own(WINHTTP_WILDCARD_KEY), own(OVERRIDE_VALUE)));
            }
            assert(pairs_text(updates@) =~= winhttp_updates(ev));
            if updates.len() == 0 {
                return Ok(None);
            }
            match write_container_overrides(config, id, &updates) {
                Ok(t) => Ok(Some(t)),
                Err(e) => {
                    let mut m = chars_of("Could not serialize GameHub dll_overrides: ");
                    append_all(&mut m, &chars_of(e.as_str()));
                    Err(string_of(&m))
                },
            }
        },
    }
}

/// The label of a container: `GameHub (<name>)`, or `GameHub` without a name.
pub fn gamehub_label(name: &Option<String>) -> (r: String)
    ensures
        r@ == (match opt_view(*name) {
            Some(n) => "GameHub ("@ + n + ")"@,
            None => "GameHub"@,
        }),
{
    match name {
        Some(n) => {
            let mut v = chars_of("GameHub (");
            append_all(&mut v, &chars_of(n.as_str()));
            append_all(&mut v, &chars_of(")"));
            string_of(&v)
        },
        None => own("GameHub"),
    }
}

/// The base container a binding runs in: the binding's own, else the
/// virtual container's.
pub fn base_container_id_for(binding: &Binding, container_base: &Option<String>) -> (r: Option<String>)
    ensures
        opt_view(r) == (match opt_view(binding.base_container_id) {
            Some(b) => Some(b),
            None => opt_view(*container_base),
        }),
{
    match &binding.base_container_id {
        Some(b) => Some(own(b.as_str())),
        None => match container_base {
            Some(b) => Some(own(b.as_str())),
            None => None,
        },
    }
}

/// The install directory named by a manifest: the first quoted text after
/// the first `"installdir"` key.
pub open spec fn manifest_installdir_spec(content: Seq<char>) -> Option<Seq<char>> {
    let needle = "\"installdir\""@;
    match first_occurrence(content, needle) {
        Some(i) => {
            let after_key = content.skip(i + needle.len());
            match first_char_index(after_key, '"') {
                Some(q) => {
                    let rest = after_key.skip(q + 1);
                    match first_char_index(rest, '"') {
                        Some(end) => Some(rest.take(end)),
                        None => None,
                    }
                },
                None => None,
            }
        },
        None => None,
    }
}

pub fn installdir_from_manifest(content: &str) -> (r: Option<String>)
    ensures
        opt_view(r) == manifest_installdir_spec(content@),
{
    let c = chars_of(content);
    let needle = chars_of("\"installdir\"");
    let i = match find(&c, &needle) {
        Some(i) => i,
        None => return None,
    };
    proof {
        lemma_first_occurrence(c@, needle@, i as int);
    }
    assert(occurs_at(c@, needle@, i as int));
    assert(i + needle.len() <= c.len());
    let key_end: usize = i + needle.len();
    let after_key = subvec(&c, key_end, c.len());
    assert(after_key@ =~= c@.skip(i + needle@.len()));
    let q = match index_of_char(&after_key, '"') {
        Some(q) => q,
        None => return None,
    };
    let rest = subvec(&after_key, q + 1, after_key.len());
    assert(rest@ =~= after_key@.skip(q + 1));
    match index_of_char(&rest, '"') {
        Some(end) => {
            let v = subvec(&rest, 0, end);
            assert(v@ =~= rest@.take(end as int));
            Some(string_of(&v))
        },
        None => None,
    }
}

/// `<game_path>/steamapps`, the Steam library of a binding.
pub fn binding_steamapps(binding: &Binding) -> (r: String)
    ensures
        r@ == join_path_spec(binding.game_path@, "steamapps"@),
{
    join_path(binding.game_path.as_str(), "steamapps")
}

/// The game folder a binding's manifest names, else `common/Zeepkist`.
pub fn game_dir_candidates(steamapps: &str, manifest: &Option<String>) -> (r: Vec<String>)
    ensures
        r@.len() >= 1,
        r@.last()@ == join_path_spec(join_path_spec(steamapps@, "common"@), "Zeepkist"@),
        match opt_view(*manifest) {
            Some(m) => match manifest_installdir_spec(m) {
                Some(d) => r@.len() == 2 && r@[0]@ == join_path_spec(
                    join_path_spec(steamapps@, "common"@),
                    d,
                ),
                None => r@.len() == 1,
            },
            None => r@.len() == 1,
        },
{
    let common = join_path(steamapps, "common");
    let mut v: Vec<String> = Vec::new();
    match manifest {
        Some(m) => match installdir_from_manifest(m.as_str()) {
            Some(d) => v.push(join_path(common.as_str(), d.as_str())),
            None => {},
        },
        None => {},
    }
    v.push(join_path(common.as_str(), "Zeepkist"));
    v
}

// ---------------------------------------------------------------------------
// Resolving a binding to an install
// ---------------------------------------------------------------------------

pub open spec fn opt4_view(
    o: Option<(Option<String>, Option<String>, Option<String>, Option<String>)>,
) -> Option<(Option<Seq<char>>, Option<Seq<char>>, Option<Seq<char>>, Option<Seq<char>>)> {
    match o {
        Some((a, b, c, d)) => Some((opt_view(a), opt_view(b), opt_view(c), opt_view(d))),
        None => None,
    }
}

/// What serde_json reads from the virtual-container configuration for
/// container `id`: its `prefix_path`, `name`, `wine_installation_id` and
/// `base_container_id` text fields (`None` for the whole when the text is not
/// JSON or the container is missing).
pub uninterp spec fn virtual_container_in(config: Seq<char>, id: Seq<char>) -> Option<
    (Option<Seq<char>>, Option<Seq<char>>, Option<Seq<char>>, Option<Seq<char>>),
>;

/// `serde_json::from_str` into a `Value`, `pointer` to
/// `/virtual_containers/<id>`, and `get` + `as_str` of four fields, turned
/// into plain values. Claimed: the result is a name of the text and the id.
#[verifier::external_body]
fn read_virtual_container(config: &str, id: &str) -> (r: Option<
    (Option<String>, Option<String>, Option<String>, Option<String>),
>)
    ensures
        opt4_view(r) == virtual_container_in(config@, id@),
{
    let root: serde_json::Value = serde_json::from_str(config).ok()?;
    let c = root.pointer(&format!("/virtual_containers/{id}"))?;
    let field = |k: &str| c.get(k).and_then(|v| v.as_str()).map(str::to_string);
    Some((field("prefix_path"), field("name"), field("wine_installation_id"), field("base_container_id")))
}

/// The `wine_installation_id` serde_json reads for base container `id`.
pub uninterp spec fn base_wine_installation_in(config: Seq<char>, id: Seq<char>) -> Option<Seq<char>>;

/// `serde_json::from_str`, then `pointer` to
/// `/containers/<id>/wine_installation_id` and `as_str`. Claimed: the result
/// is a name of the text and the id.
#[verifier::external_body]
fn read_base_wine_installation(config: &str, id: &str) -> (r: Option<String>)
    ensures
        opt_view(r) == base_wine_installation_in(config@, id@),
{
    let root: serde_json::Value = serde_json::from_str(config).ok()?;
    root.pointer(&format!("/containers/{id}/wine_installation_id")).and_then(|v| v.as_str()).map(str::to_string)
}

pub open spec fn opt2_view(o: Option<(Option<String>, Option<String>)>) -> Option<
    (Option<Seq<char>>, Option<Seq<char>>),
> {
    match o {
        Some((a, b)) => Some((opt_view(a), opt_view(b))),
        None => None,
    }
}

/// What serde_json reads for wine installation `id`: its
/// `metadata/wine_executable` and `install_path` text fields (`None` for the
/// whole when the text is not JSON or the installation is missing).
pub uninterp spec fn wine_installation_in(config: Seq<char>, id: Seq<char>) -> Option<
    (Option<Seq<char>>, Option<Seq<char>>),
>;

/// `serde_json::from_str`, `pointer` to `/wine_installations/<id>`, then
/// the two fields as text. Claimed: the result is a name of the text and the
/// id.
#[verifier::external_body]
fn read_wine_installation(config: &str, id: &str) -> (r: Option<(Option<String>, Option<String>)>)
    ensures
        opt2_view(r) == wine_installation_in(config@, id@),
{
    let root: serde_json::Value = serde_json::from_str(config).ok()?;
    let i = root.pointer(&format!("/wine_installations/{id}"))?;
    let exe = i.pointer("/metadata/wine_executable").and_then(|v| v.as_str()).map(str::to_string);
    Some((exe, i.get("install_path").and_then(|v| v.as_str()).map(str::to_string)))
}

/// Where a binding's install would be, before the disk is asked: its
/// prefix, its label, and the `wine` binaries to try in order.
pub struct ResolutionPlan {
    pub prefix: String,
    pub label: String,
    pub wine_candidates: Vec<String>,
}

/// The wine installation of a binding: the container's own, else that of
/// its base container (the binding's, else the container's).
pub open spec fn wine_installation_id_spec(
    binding: Binding,
    fields: (Option<Seq<char>>, Option<Seq<char>>, Option<Seq<char>>, Option<Seq<char>>),
    base_config: Option<Seq<char>>,
) -> Option<Seq<char>> {
    match fields.2 {
        Some(w) => Some(w),
        None => {
            let base = match opt_view(binding.base_container_id) {
                Some(b) => Some(b),
                None => fields.3,
            };
            match (base, base_config) {
                (Some(b), Some(cfg)) => base_wine_installation_in(cfg, b),
                _ => None,
            }
        },
    }
}

/// The `wine` binaries of an installation, in the order they are tried:
/// its recorded executable, then `<install_path>/bin/wine`.
pub open spec fn wine_candidates_spec(inst: (Option<Seq<char>>, Option<Seq<char>>)) -> Seq<Seq<char>> {
    let a: Seq<Seq<char>> = match inst.0 {
        Some(e) => seq![e],
        None => Seq::empty(),
    };
    let b: Seq<Seq<char>> = match inst.1 {
        Some(p) => seq![join_path_spec(p, "bin/wine"@)],
        None => Seq::empty(),
    };
    a + b
}

pub open spec fn plan_spec(
    binding: Binding,
    virtual_config: Option<Seq<char>>,
    base_config: Option<Seq<char>>,
    installations_config: Option<Seq<char>>,
) -> Option<(Seq<char>, Seq<char>, Seq<Seq<char>>)> {
    match virtual_config {
        None => None,
        Some(vc) => match virtual_container_in(vc, binding.virtual_container_id@) {
            None => None,
            Some(fields) => match fields.0 {
                None => None,
                Some(prefix) => {
                    let label = match fields.1 {
                        Some(n) => "GameHub ("@ + n + ")"@,
                        None => "GameHub"@,
                    };
                    match (wine_installation_id_spec(binding, fields, base_config), installations_config) {
                        (Some(w), Some(ic)) => match wine_installation_in(ic, w) {
                            Some(inst) => Some((prefix, label, wine_candidates_spec(inst))),
                            None => None,
                        },
                        _ => None,
                    }
                },
            },
        },
    }
}

pub open spec fn strings_of(v: Seq<String>) -> Seq<Seq<char>> {
    v.map_values(|s: String| s@)
}

/// Plans resolving a binding from GameHub's three configuration files (each
/// `None` when it could not be read): the container must exist and name its
/// prefix, and a wine installation must be found for it.
pub fn plan_binding_resolution(
    binding: &Binding,
    virtual_config: &Option<String>,
    base_config: &Option<String>,
    installations_config: &Option<String>,
) -> (r: Option<ResolutionPlan>)
    ensures
        match plan_spec(*binding, opt_view(*virtual_config), opt_view(*base_config), opt_view(*installations_config)) {
            Some((prefix, label, wines)) => r matches Some(p) && p.prefix@ == prefix && p.label@ == label
                && strings_of(p.wine_candidates@) == wines,
            None => r is None,
        },
{
    let vc = match virtual_config {
        Some(c) => c,
        None => return None,
    };
    let fields = match read_virtual_container(vc.as_str(), binding.virtual_container_id.as_str()) {
        Some(f) => f,
        None => return None,
    };
    let (prefix_path, name, wine_id, container_base) = fields;
    let prefix = match prefix_path {
        Some(p) => p,
        None => return None,
    };
    let label = gamehub_label(&name);
    let wine_installation = match wine_id {
        Some(w) => Some(w),
        None => match (base_container_id_for(binding, &container_base), base_config) {
            (Some(b), Some(cfg)) => read_base_wine_installation(cfg.as_str(), b.as_str()),
            _ => None,
        },
    };
    let inst = match (wine_installation, installations_config) {
        (Some(w), Some(ic)) => match read_wine_installation(ic.as_str(), w.as_str()) {
            Some(i) => i,
            None => return None,
        },
        _ => return None,
    };
    let (exe, install_path) = inst;
    let mut wines: Vec<String> = Vec::new();
    match exe {
        Some(e) => wines.push(e),
        None => {},
    }
    match install_path {
        Some(p) => wines.push(join_path(p.as_str(), "bin/wine")),
        None => {},
    }
    assert(strings_of(wines@) =~= wine_candidates_spec((opt_view(exe), opt_view(install_path))));
    Some(ResolutionPlan { prefix, label, wine_candidates: wines })
}

/// The install a plan gives once the disk was asked: it needs the game's
/// folder (the first candidate holding the executable), `user.reg` in the
/// prefix, and the first wine candidate that is a file.
pub fn finish_binding_resolution(
    binding: &Binding,
    plan: ResolutionPlan,
    game_dir: Option<String>,
    prefix_has_user_reg: bool,
    wine_exists: &Vec<bool>,
) -> (r: Option<GameHubInstall>)
    requires
        wine_exists@.len() == plan.wine_candidates@.len(),
    ensures
        (game_dir is None || !prefix_has_user_reg || !wine_exists@.contains(true)) ==> r is None,
        (game_dir is Some && prefix_has_user_reg && wine_exists@.contains(true)) ==> (r matches Some(i)
            && i.game_dir@ == game_dir->0@ && i.prefix@ == plan.prefix@ && i.label@ == plan.label@
            && i.virtual_container_id@ == binding.virtual_container_id@ && exists|k: int|
            0 <= k < wine_exists@.len() && wine_exists@[k] && (forall|j: int| 0 <= j < k ==> !wine_exists@[j])
                && i.wine@ == plan.wine_candidates@[k]@),
{
    let g = match game_dir {
        Some(g) => g,
        None => return None,
    };
    if !prefix_has_user_reg {
        return None;
    }
    let mut k: usize = 0;
    while k < wine_exists.len()
        invariant
            k <= wine_exists.len(),
            wine_exists@.len() == plan.wine_candidates@.len(),
            game_dir == Some(g),
            prefix_has_user_reg,
            forall|j: int| 0 <= j < k ==> !wine_exists@[j],
        decreases wine_exists.len() - k,
    {
        if wine_exists[k] {
            proof {
                let kk = k as int;
                assert(wine_exists@[kk]);
                assert(wine_exists@.contains(true));
            }
            return Some(
                GameHubInstall {
                    game_dir: g,
                    prefix: plan.prefix,
                    wine: own(plan.wine_candidates[k].as_str()),
                    label: plan.label,
                    virtual_container_id: own(binding.virtual_container_id.as_str()),
                },
            );
        }
        k = k + 1;
    }
    assert(!wine_exists@.contains(true));
    None
}

} // verus!
