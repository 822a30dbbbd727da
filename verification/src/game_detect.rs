//! Finding Zeepkist installs: Steam library folders and app manifests
//! (Valve's VDF text format), and the list of candidates offered to the user.
use vstd::prelude::*;

use crate::game_launch::STEAM_APP_ID;
use crate::paths::{join_path, join_path_spec};
use crate::text::{
    append_all, chars_eq, chars_of, find, first_char_index, first_occurrence, index_of_char,
    lemma_first_occurrence, lines, lines_seq, occurs_at, opt_view, own, starts_with,
    starts_with_seq, string_of, subvec, trim, trim_seq, trim_start, trim_start_seq,
};
use crate::wine_prefix::collapse_backslashes;

verus! {

/// A directory that may hold the game, and where it was found.
pub struct GamePathCandidate {
    pub path: String,
    pub source: String,
}

/// The text between the first pair of quotes of `value`, which must start
/// with one once leading whitespace is skipped.
pub open spec fn vdf_quoted_spec(value: Seq<char>) -> Option<Seq<char>> {
    let rest = trim_start_seq(value);
    if rest.len() > 0 && rest[0] == '"' {
        match first_char_index(rest.skip(1), '"') {
            Some(end) => Some(rest.skip(1).take(end)),
            None => None,
        }
    } else {
        None
    }
}

pub fn parse_vdf_quoted_value(value: &Vec<char>) -> (r: Option<Vec<char>>)
    ensures
        match r {
            Some(v) => vdf_quoted_spec(value@) == Some(v@),
            None => vdf_quoted_spec(value@) is None,
        },
{
    let rest = trim_start(value);
    if rest.len() == 0 || rest[0] != '"' {
        return None;
    }
    let inner = subvec(&rest, 1, rest.len());
    assert(inner@ =~= rest@.skip(1));
    match index_of_char(&inner, '"') {
        Some(end) => {
            let v = subvec(&inner, 0, end);
            assert(v@ =~= inner@.take(end as int));
            Some(v)
        },
        None => None,
    }
}

/// The quoted value after the first occurrence of `key`, with doubled
/// backslashes collapsed (VDF escapes them).
pub open spec fn vdf_value_spec(line: Seq<char>, key: Seq<char>) -> Option<Seq<char>> {
    match first_occurrence(line, key) {
        Some(i) => {
            let after_key = line.skip(i + key.len());
            match first_char_index(after_key, '"') {
                Some(q) => match vdf_quoted_spec(after_key.skip(q)) {
                    Some(v) => Some(collapse_backslashes(v)),
                    None => None,
                },
                None => None,
            }
        },
        None => None,
    }
}

pub fn vdf_value_after_key(line: &Vec<char>, key: &Vec<char>) -> (r: Option<Vec<char>>)
    ensures
        match r {
            Some(v) => vdf_value_spec(line@, key@) == Some(v@),
            None => vdf_value_spec(line@, key@) is None,
        },
{
    let i = match find(line, key) {
        Some(i) => i,
        None => return None,
    };
    proof {
        lemma_first_occurrence(line@, key@, i as int);
    }
    assert(occurs_at(line@, key@, i as int));
    assert(i + key.len() <= line.len());
    let key_end: usize = i + key.len();
    let after_key = subvec(line, key_end, line.len());
    assert(after_key@ =~= line@.skip(i + key@.len()));
    let q = match index_of_char(&after_key, '"') {
        Some(q) => q,
        None => return None,
    };
    let quoted = subvec(&after_key, q, after_key.len());
    assert(quoted@ =~= after_key@.skip(q as int));
    match parse_vdf_quoted_value(&quoted) {
        Some(v) => Some(unescape_vdf_path(&v)),
        None => None,
    }
}

/// Doubled backslashes become single ones.
pub fn unescape_vdf_path(value: &Vec<char>) -> (r: Vec<char>)
    ensures
        r@ == collapse_backslashes(value@),
{
    crate::wine_prefix::collapse_backslashes_chars(value)
}

/// The `installdir` of a Steam app manifest.
pub fn installdir_from_manifest(content: &str) -> (r: Option<String>)
    ensures
        opt_view(r) == vdf_value_spec(content@, "\"installdir\""@),
{
    match vdf_value_after_key(&chars_of(content), &chars_of("\"installdir\"")) {
        Some(v) => Some(string_of(&v)),
        None => None,
    }
}

/// The library paths of `libraryfolders.vdf`: the value of every line that
/// starts (after trimming) with the `"path"` key.
pub open spec fn library_paths_spec(ls: Seq<Seq<char>>) -> Seq<Seq<char>>
    decreases ls.len(),
{
    if ls.len() == 0 {
        Seq::empty()
    } else {
        let prev = library_paths_spec(ls.drop_last());
        let t = trim_seq(ls.last());
        if starts_with_seq(t, "\"path\""@) {
            match vdf_value_spec(t, "\"path\""@) {
                Some(p) => prev.push(p),
                None => prev,
            }
        } else {
            prev
        }
    }
}

/// A line of `libraryfolders.vdf` naming a library: it starts (after
/// trimming) with the `"path"` key, which has a quoted value.
pub open spec fn is_library_path_line(l: Seq<char>) -> bool {
    starts_with_seq(trim_seq(l), "\"path\""@) && vdf_value_spec(trim_seq(l), "\"path\""@) is Some
}

/// The library a path line names.
pub open spec fn library_path_of(l: Seq<char>) -> Seq<char> {
    vdf_value_spec(trim_seq(l), "\"path\""@)->0
}

/// One more line adds its library after those already found, if it names
/// one, and changes nothing otherwise.
pub proof fn lemma_library_paths_append(ls: Seq<Seq<char>>, l: Seq<char>)
    ensures
        is_library_path_line(l) ==> library_paths_spec(ls.push(l)) == library_paths_spec(ls).push(
            library_path_of(l),
        ),
        !is_library_path_line(l) ==> library_paths_spec(ls.push(l)) == library_paths_spec(ls),
{
    assert(ls.push(l).drop_last() =~= ls);
}

/// The libraries found are those of the path lines, one for each, in line
/// order.
pub proof fn lemma_library_paths_are_path_lines(ls: Seq<Seq<char>>)
    ensures
        library_paths_spec(ls) == ls.filter(|l: Seq<char>| is_library_path_line(l)).map_values(
            |l: Seq<char>| library_path_of(l),
        ),
        library_paths_spec(ls).len() == ls.filter(|l: Seq<char>| is_library_path_line(l)).len(),
    decreases ls.len(),
{
    let pred = |l: Seq<char>| is_library_path_line(l);
    let f = |l: Seq<char>| library_path_of(l);
    if ls.len() == 0 {
        assert(ls.filter(pred) =~= Seq::<Seq<char>>::empty()) by {
            reveal(Seq::filter);
        }
        assert(ls.filter(pred).map_values(f) =~= Seq::<Seq<char>>::empty());
    } else {
        let init = ls.drop_last();
        lemma_library_paths_are_path_lines(init);
        assert(init.push(ls.last()) =~= ls);
        init.lemma_filter_push(ls.last(), pred);
        lemma_library_paths_append(init, ls.last());
        if pred(ls.last()) {
            assert(init.filter(pred).push(ls.last()).map_values(f) =~= init.filter(pred).map_values(f).push(
                f(ls.last()),
            ));
        }
    }
}

/// The libraries found in the first lines come first, unchanged, among
/// those found in all lines.
pub proof fn lemma_library_paths_prefix(ls: Seq<Seq<char>>, k: int)
    requires
        0 <= k <= ls.len(),
    ensures
        library_paths_spec(ls.take(k)).len() <= library_paths_spec(ls).len(),
        library_paths_spec(ls.take(k)) == library_paths_spec(ls).take(library_paths_spec(ls.take(k)).len() as int),
    decreases ls.len(),
{
    if k == ls.len() {
        assert(ls.take(k) =~= ls);
        assert(library_paths_spec(ls).take(library_paths_spec(ls).len() as int) =~= library_paths_spec(ls));
    } else {
        let init = ls.drop_last();
        assert(init.take(k) =~= ls.take(k));
        lemma_library_paths_prefix(init, k);
        assert(init.push(ls.last()) =~= ls);
        lemma_library_paths_append(init, ls.last());
        let a = library_paths_spec(ls.take(k));
        let b = library_paths_spec(init);
        if is_library_path_line(ls.last()) {
            assert(b.push(library_path_of(ls.last())).take(a.len() as int) =~= b.take(a.len() as int));
        }
    }
}

pub open spec fn strings_view(v: Seq<String>) -> Seq<Seq<char>> {
    v.map_values(|s: String| s@)
}

pub fn paths_from_libraryfolders_vdf(content: &str) -> (r: Vec<String>)
    ensures
        strings_view(r@) == library_paths_spec(lines_seq(content@)),
        strings_view(r@) == lines_seq(content@).filter(|l: Seq<char>| is_library_path_line(l)).map_values(
            |l: Seq<char>| library_path_of(l),
        ),
{
    proof {
        lemma_library_paths_are_path_lines(lines_seq(content@));
    }
    let ls = lines(&chars_of(content));
    let ghost lv = ls@.map_values(|x: Vec<char>| x@);
    let key = chars_of("\"path\"");
    let mut paths: Vec<String> = Vec::new();
    let mut i: usize = 0;
    assert(lv.take(0) =~= Seq::<Seq<char>>::empty());
    assert(strings_view(paths@) =~= Seq::<Seq<char>>::empty());
    while i < ls.len()
        invariant
            i <= ls.len(),
            lv == ls@.map_values(|x: Vec<char>| x@),
            lv == lines_seq(content@),
            key@ == "\"path\""@,
            strings_view(paths@) == library_paths_spec(lv.take(i as int)),
        decreases ls.len() - i,
    {
        assert(lv.take(i + 1).drop_last() =~= lv.take(i as int));
        assert(lv.take(i + 1).last() == ls@[i as int]@);
        let t = trim(&ls[i]);
        if starts_with(&t, &key) {
            match vdf_value_after_key(&t, &key) {
                Some(p) => {
                    let ghost before = strings_view(paths@);
                    paths.push(string_of(&p));
                    assert(strings_view(paths@) =~= before.push(p@));
                },
                None => {},
            }
        }
        i = i + 1;
    }
    assert(lv.take(i as int) =~= lv);
    paths
}

/// `<steamapps>/appmanifest_1440670.acf`, Zeepkist's Steam manifest.
pub fn manifest_path(steamapps: &str) -> (r: String)
    ensures
        r@ == join_path_spec(steamapps@, "appmanifest_"@ + STEAM_APP_ID@ + ".acf"@),
{
    let mut name = chars_of("appmanifest_");
    append_all(&mut name, &chars_of(STEAM_APP_ID));
    append_all(&mut name, &chars_of(".acf"));
    join_path(steamapps, string_of(&name).as_str())
}

/// `<steamapps>/common/<installdir>` for the manifest's install directory.
pub fn game_dir_from_manifest(steamapps: &str, manifest: &str) -> (r: Option<String>)
    ensures
        match vdf_value_spec(manifest@, "\"installdir\""@) {
            Some(d) => opt_view(r) == Some(join_path_spec(join_path_spec(steamapps@, "common"@), d)),
            None => r is None,
        },
{
    match installdir_from_manifest(manifest) {
        Some(d) => {
            let common = join_path(steamapps, "common");
            Some(join_path(common.as_str(), d.as_str()))
        },
        None => None,
    }
}

fn contains_string(v: &Vec<String>, s: &str) -> (r: bool)
    ensures
        r == strings_view(v@).contains(s@),
{
    let t = chars_of(s);
    let mut i: usize = 0;
    while i < v.len()
        invariant
            i <= v.len(),
            t@ == s@,
            forall|j: int| 0 <= j < i ==> v@[j]@ != s@,
        decreases v.len() - i,
    {
        if chars_eq(&chars_of(v[i].as_str()), &t) {
            assert(strings_view(v@)[i as int] == s@);
            return true;
        }
        i = i + 1;
    }
    assert(!strings_view(v@).contains(s@)) by {
        if strings_view(v@).contains(s@) {
            let j = choose|j: int| 0 <= j < strings_view(v@).len() && strings_view(v@)[j] == s@;
            assert(v@[j]@ == s@);
        }
    }
    false
}

/// Adds a candidate unless it is not a valid game directory or its key (the
/// canonical path) was seen already.
pub fn push_candidate(
    candidates: &mut Vec<GamePathCandidate>,
    seen: &mut Vec<String>,
    path: &str,
    key: &str,
    source: &str,
    valid: bool,
)
    ensures
        (!valid || strings_view(old(seen)@).contains(key@)) ==> final(candidates)@ == old(candidates)@
            && final(seen)@ == old(seen)@,
        (valid && !strings_view(old(seen)@).contains(key@)) ==> {
            &&& strings_view(final(seen)@) == strings_view(old(seen)@).push(key@)
            &&& final(candidates)@.len() == old(candidates)@.len() + 1
            &&& forall|i: int|
                0 <= i < old(candidates)@.len() ==> final(candidates)@[i] == old(candidates)@[i]
            &&& final(candidates)@.last().path@ == path@
            &&& final(candidates)@.last().source@ == source@
        },
{
    if !valid {
        return ;
    }
    if contains_string(seen, key) {
        return ;
    }
    let ghost before = strings_view(seen@);
    seen.push(own(key));
    assert(strings_view(seen@) =~= before.push(key@));
    candidates.push(GamePathCandidate { path: own(path), source: own(source) });
}

/// `acc` with each of `items` appended unless already present.
pub open spec fn append_unique(acc: Seq<Seq<char>>, items: Seq<Seq<char>>) -> Seq<Seq<char>>
    decreases items.len(),
{
    if items.len() == 0 {
        acc
    } else {
        let prev = append_unique(acc, items.drop_last());
        if prev.contains(items.last()) {
            prev
        } else {
            prev.push(items.last())
        }
    }
}

/// The `steamapps` folder of each library, then the install's own.
pub open spec fn steamapps_candidates(steam_root: Seq<char>, library_paths: Seq<Seq<char>>) -> Seq<Seq<char>> {
    library_paths.map_values(|p: Seq<char>| join_path_spec(p, "steamapps"@)).push(
        join_path_spec(steam_root, "steamapps"@),
    )
}

/// Adds the `steamapps` folders of one Steam install to those found so far:
/// each library's, then the install's own, skipping any already listed.
pub fn add_steamapps_directories(dirs: &mut Vec<String>, steam_root: &str, library_paths: &Vec<String>)
    ensures
        strings_view(final(dirs)@) == append_unique(
            strings_view(old(dirs)@),
            steamapps_candidates(steam_root@, strings_view(library_paths@)),
        ),
{
    let ghost d0 = strings_view(dirs@);
    let ghost items = steamapps_candidates(steam_root@, strings_view(library_paths@));
    let mut i: usize = 0;
    assert(items.take(0) =~= Seq::<Seq<char>>::empty());
    while i < library_paths.len()
        invariant
            i <= library_paths.len(),
            items == steamapps_candidates(steam_root@, strings_view(library_paths@)),
            strings_view(dirs@) == append_unique(d0, items.take(i as int)),
        decreases library_paths.len() - i,
    {
        let s = join_path(library_paths[i].as_str(), "steamapps");
        assert(items.take(i + 1).drop_last() =~= items.take(i as int));
        assert(items.take(i + 1).last() == s@);
        push_unique(dirs, s);
        i = i + 1;
    }
    let own_dir = join_path(steam_root, "steamapps");
    assert(items.drop_last() =~= items.take(i as int));
    assert(items.last() == own_dir@);
    push_unique(dirs, own_dir);
}

fn push_unique(dirs: &mut Vec<String>, s: String)
    ensures
        strings_view(final(dirs)@) == (if strings_view(old(dirs)@).contains(s@) {
            strings_view(old(dirs)@)
        } else {
            strings_view(old(dirs)@).push(s@)
        }),
{
    let ghost before = strings_view(dirs@);
    if contains_string(dirs, s.as_str()) {
        return ;
    }
    let ghost sv = s@;
    dirs.push(s);
    assert(strings_view(dirs@) =~= before.push(sv));
}

} // verus!
