//! Sideloaded mods: files the user adds by hand (plugins, levels, zip
//! archives), where they go, how entries are named and which ids are safe.
use vstd::prelude::*;

use crate::mod_folder::{sanitize_mod_name, sanitize_spec};
use crate::number::{dec_seq, lemma_parse_dec, u64_to_dec};
use crate::paths::{join_path, join_path_spec};
use crate::text::{
    append_all, chars_eq, chars_of, opt_view, eq_ignore_case, has_char, lower, lower_seq, own, split, split_seq,
    string_of, subvec,
};
use crate::user_reg_proofs::{lemma_lex_le_total, lemma_lex_le_trans};
use crate::wine_prefix::{lex_le, lex_le_exec};

verus! {

pub const SIDELOAD_ROOT: &'static str = "BepInEx/plugins/Sideloaded";

pub const PLUGINS_DIR: &'static str = "Plugins";

pub const BLUEPRINTS_DIR: &'static str = "Blueprints";

#[derive(PartialEq, Eq, Structural, Clone, Copy, Debug)]
pub enum SideloadTargetKind {
    Plugins,
    Blueprints,
}

#[derive(PartialEq, Eq, Structural, Clone, Copy, Debug)]
pub enum SideloadSourceType {
    Dll,
    Zeeplevel,
    Archive,
}

/// What a set of files holds: only plugins, only levels, or both (or
/// something else), which needs the user to choose.
#[derive(PartialEq, Eq, Structural, Clone, Copy, Debug)]
pub enum ArchiveContentKind {
    PluginsOnly,
    BlueprintsOnly,
    Mixed,
}

#[derive(PartialEq, Eq, Structural, Clone, Copy, Debug)]
pub enum SideloadFileKind {
    Dll,
    Zeeplevel,
    Archive,
}

/// A sideloaded mod as listed.
pub struct SideloadedEntry {
    pub id: String,
    pub name: String,
    pub target_kind: SideloadTargetKind,
    pub source_type: SideloadSourceType,
    pub linked: bool,
    pub added_at: Option<String>,
}

/// Adding a mod either added it or needs the user to pick its target.
pub enum AddSideloadedModResult {
    Added { entry: SideloadedEntry },
    NeedsTargetChoice { folder_name: String, source_paths: Vec<String> },
}

pub open spec fn kind_dir_spec(kind: SideloadTargetKind) -> Seq<char> {
    match kind {
        SideloadTargetKind::Plugins => PLUGINS_DIR@,
        SideloadTargetKind::Blueprints => BLUEPRINTS_DIR@,
    }
}

fn kind_dir(kind: SideloadTargetKind) -> (r: &'static str)
    ensures
        r@ == kind_dir_spec(kind),
{
    match kind {
        SideloadTargetKind::Plugins => PLUGINS_DIR,
        SideloadTargetKind::Blueprints => BLUEPRINTS_DIR,
    }
}

/// `<game>/BepInEx/plugins/Sideloaded`.
pub fn sideload_root(game_dir: &str) -> (r: String)
    ensures
        r@ == join_path_spec(game_dir@, SIDELOAD_ROOT@),
{
    join_path(game_dir, SIDELOAD_ROOT)
}

/// `<root>/Plugins` or `<root>/Blueprints`.
pub fn sideload_kind_root(root: &str, kind: SideloadTargetKind) -> (r: String)
    ensures
        r@ == join_path_spec(root@, kind_dir_spec(kind)),
{
    join_path(root, kind_dir(kind))
}

/// `<Plugins|Blueprints>/<folder>`, the id of an entry.
pub fn entry_id(kind: SideloadTargetKind, folder_name: &str) -> (r: String)
    ensures
        r@ == kind_dir_spec(kind) + "/"@ + folder_name@,
{
    let mut v = chars_of(kind_dir(kind));
    append_all(&mut v, &chars_of("/"));
    append_all(&mut v, &chars_of(folder_name));
    string_of(&v)
}

/// `<root>/<id>`.
pub fn resolve_entry_dir(root: &str, entry_id: &str) -> (r: String)
    ensures
        r@ == join_path_spec(root@, entry_id@),
{
    join_path(root, entry_id)
}

// ---------------------------------------------------------------------------
// Entry ids
// ---------------------------------------------------------------------------

pub open spec fn is_safe_segment_spec(s: Seq<char>) -> bool {
    s.len() > 0 && s != "."@ && s != ".."@
}

/// Not empty, `.` or `..`.
pub fn is_safe_path_segment(segment: &str) -> (r: bool)
    ensures
        r == is_safe_segment_spec(segment@),
{
    let s = chars_of(segment);
    s.len() > 0 && !chars_eq(&s, &chars_of(".")) && !chars_eq(&s, &chars_of(".."))
}

/// An id that stays inside the sideload folder: one safe name other than
/// the kind folders, or a kind folder and one safe name; no backslashes.
pub open spec fn is_safe_entry_id_spec(id: Seq<char>) -> bool {
    let parts = split_seq(id, "/"@);
    &&& id.len() > 0
    &&& !id.contains('\\')
    &&& if parts.len() == 1 {
        is_safe_segment_spec(parts[0]) && parts[0] != PLUGINS_DIR@ && parts[0] != BLUEPRINTS_DIR@
    } else if parts.len() == 2 {
        (parts[0] == PLUGINS_DIR@ || parts[0] == BLUEPRINTS_DIR@) && is_safe_segment_spec(parts[1])
    } else {
        false
    }
}

/// An accepted entry id names a path inside the sideload folder: it is
/// relative, climbs out through no `..`, and the resolved path starts with
/// the folder's own.
pub proof fn lemma_safe_entry_id_stays_inside(root: Seq<char>, id: Seq<char>)
    requires
        is_safe_entry_id_spec(id),
    ensures
        id[0] != '/',
        !crate::zip_extract::has_parent_component(id),
        root.len() > 0 ==> crate::text::starts_with_seq(join_path_spec(root, id), root),
{
    reveal_strlit("/");
    reveal_strlit("..");
    reveal_strlit("Plugins");
    reveal_strlit("Blueprints");
    let parts = split_seq(id, "/"@);
    if id[0] == '/' {
        assert(crate::text::is_first_occurrence(id, "/"@, 0, 0)) by {
            assert(id.subrange(0, 1) =~= "/"@);
        }
        crate::text::lemma_first_occurrence(id, "/"@, 0);
        assert(parts[0] =~= Seq::<char>::empty());
        assert(parts.len() >= 1);
    }
    assert(PLUGINS_DIR@ != ".."@) by {
        assert(PLUGINS_DIR@.len() != ".."@.len());
    }
    assert(BLUEPRINTS_DIR@ != ".."@) by {
        assert(BLUEPRINTS_DIR@.len() != ".."@.len());
    }
    if crate::zip_extract::has_parent_component(id) {
        let i = choose|i: int| 0 <= i < parts.len() && #[trigger] parts[i] == ".."@;
        assert(parts[i] == ".."@);
    }
    if root.len() > 0 {
        let j = join_path_spec(root, id);
        assert(j.subrange(0, root.len() as int) =~= root);
    }
}

pub fn is_safe_entry_id(entry_id: &str) -> (r: bool)
    ensures
        r == is_safe_entry_id_spec(entry_id@),
{
    let id = chars_of(entry_id);
    if id.len() == 0 || has_char(&id, '\\') {
        return false;
    }
    let slash = chars_of("/");
    proof {
        reveal_strlit("/");
    }
    let parts = split(&id, &slash);
    let ghost pv = parts@.map_values(|x: Vec<char>| x@);
    assert(pv == split_seq(id@, "/"@));
    if parts.len() == 1 {
        assert(pv[0] == parts@[0]@);
        let name = string_of(&parts[0]);
        return is_safe_path_segment(name.as_str()) && !chars_eq(&parts[0], &chars_of(PLUGINS_DIR))
            && !chars_eq(&parts[0], &chars_of(BLUEPRINTS_DIR));
    }
    if parts.len() == 2 {
        assert(pv[0] == parts@[0]@);
        assert(pv[1] == parts@[1]@);
        let kind_ok = chars_eq(&parts[0], &chars_of(PLUGINS_DIR)) || chars_eq(
            &parts[0],
            &chars_of(BLUEPRINTS_DIR),
        );
        let name = string_of(&parts[1]);
        return kind_ok && is_safe_path_segment(name.as_str());
    }
    false
}

// ---------------------------------------------------------------------------
// File names
// ---------------------------------------------------------------------------

/// Index of the last `c` in `s`.
pub open spec fn last_index_of(s: Seq<char>, c: char) -> Option<int>
    decreases s.len(),
{
    if s.len() == 0 {
        None
    } else if s.last() == c {
        Some(s.len() - 1)
    } else {
        last_index_of(s.drop_last(), c)
    }
}

fn last_index_of_exec(v: &Vec<char>, c: char) -> (r: Option<usize>)
    ensures
        match r {
            Some(i) => last_index_of(v@, c) == Some(i as int),
            None => last_index_of(v@, c) is None,
        },
        r matches Some(i) ==> i < v@.len(),
{
    let mut j: usize = v.len();
    assert(v@.take(j as int) =~= v@);
    while j > 0
        invariant
            j <= v.len(),
            last_index_of(v@, c) == last_index_of(v@.take(j as int), c),
        decreases j,
    {
        assert(v@.take(j as int).last() == v@[j - 1]);
        if v[j - 1] == c {
            return Some(j - 1);
        }
        assert(v@.take(j as int).drop_last() =~= v@.take(j - 1));
        j = j - 1;
    }
    None
}

/// The last component of a slash-separated path.
pub open spec fn file_name_spec(path: Seq<char>) -> Seq<char> {
    match last_index_of(path, '/') {
        Some(i) => path.skip(i + 1),
        None => path,
    }
}

/// `Path::extension` of a file name: after its last dot, unless the only dot
/// starts the name.
pub open spec fn extension_spec(name: Seq<char>) -> Option<Seq<char>> {
    match last_index_of(name, '.') {
        Some(i) => if i > 0 && name != ".."@ {
            Some(name.skip(i + 1))
        } else {
            None
        },
        None => None,
    }
}

/// `Path::file_stem` of a file name: before its last dot, as `extension`
/// splits it.
pub open spec fn stem_spec(name: Seq<char>) -> Seq<char> {
    match last_index_of(name, '.') {
        Some(i) => if i > 0 && name != ".."@ {
            name.take(i)
        } else {
            name
        },
        None => name,
    }
}

pub fn file_name_of(path: &Vec<char>) -> (r: Vec<char>)
    ensures
        r@ == file_name_spec(path@),
{
    match last_index_of_exec(path, '/') {
        Some(i) => {
            assert(i < path.len());
            let r = subvec(path, i + 1, path.len());
            assert(r@ =~= path@.skip(i + 1));
            r
        },
        None => subvec(path, 0, path.len()),
    }
}

pub fn extension_of(name: &Vec<char>) -> (r: Option<Vec<char>>)
    ensures
        match r {
            Some(e) => extension_spec(name@) == Some(e@),
            None => extension_spec(name@) is None,
        },
{
    match last_index_of_exec(name, '.') {
        Some(i) => {
            assert(i < name.len());
            if i > 0 && !chars_eq(name, &chars_of("..")) {
                let r = subvec(name, i + 1, name.len());
                assert(r@ =~= name@.skip(i + 1));
                Some(r)
            } else {
                None
            }
        },
        None => None,
    }
}

pub fn stem_of(name: &Vec<char>) -> (r: Vec<char>)
    ensures
        r@ == stem_spec(name@),
{
    match last_index_of_exec(name, '.') {
        Some(i) => {
            if i > 0 && !chars_eq(name, &chars_of("..")) {
                let r = subvec(name, 0, i);
                assert(r@ =~= name@.take(i as int));
                r
            } else {
                subvec(name, 0, name.len())
            }
        },
        None => subvec(name, 0, name.len()),
    }
}

/// The kind a file extension stands for, ignoring ASCII case.
pub open spec fn file_kind_spec(extension: Seq<char>) -> Option<SideloadFileKind> {
    let e = lower_seq(extension);
    if e == "dll"@ {
        Some(SideloadFileKind::Dll)
    } else if e == "zeeplevel"@ {
        Some(SideloadFileKind::Zeeplevel)
    } else if e == "zip"@ {
        Some(SideloadFileKind::Archive)
    } else {
        None
    }
}

/// Sideloading goes by a file's extension, in any ASCII case: `dll` is a
/// plugin, `zeeplevel` a level, `zip` an archive, and nothing else is taken.
pub proof fn lemma_extension_kinds(extension: Seq<char>)
    ensures
        file_kind_spec(extension) == Some(SideloadFileKind::Dll) <==> lower_seq(extension) == "dll"@,
        file_kind_spec(extension) == Some(SideloadFileKind::Zeeplevel) <==> lower_seq(extension)
            == "zeeplevel"@,
        file_kind_spec(extension) == Some(SideloadFileKind::Archive) <==> lower_seq(extension) == "zip"@,
        file_kind_spec(extension) is None <==> (lower_seq(extension) != "dll"@ && lower_seq(extension)
            != "zeeplevel"@ && lower_seq(extension) != "zip"@),
{
    reveal_strlit("dll");
    reveal_strlit("zeeplevel");
    reveal_strlit("zip");
    assert("dll"@.len() == 3 && "zip"@.len() == 3 && "zeeplevel"@.len() == 9);
    assert("dll"@[0] != "zip"@[0]);
    assert("dll"@ != "zip"@);
}

/// A file whose name ends in `.zip` (any case) is an archive.
pub proof fn lemma_zip_path_is_archive(path: Seq<char>)
    requires
        has_extension(path, "zip"@),
    ensures
        path_kind(path) == Some(SideloadFileKind::Archive),
{
    reveal_strlit("zip");
    let e = extension_spec(file_name_spec(path))->0;
    assert(lower_seq("zip"@) =~= "zip"@);
    lemma_extension_kinds(e);
}

pub fn file_kind_for_extension(extension: &str) -> (r: Option<SideloadFileKind>)
    ensures
        r == file_kind_spec(extension@),
{
    let e = chars_of(extension);
    if eq_ignore_case(&e, &chars_of("dll")) {
        proof {
            reveal_strlit("dll");
            assert(lower_seq("dll"@) =~= "dll"@);
        }
        return Some(SideloadFileKind::Dll);
    }
    if eq_ignore_case(&e, &chars_of("zeeplevel")) {
        proof {
            reveal_strlit("zeeplevel");
            assert(lower_seq("zeeplevel"@) =~= "zeeplevel"@);
        }
        return Some(SideloadFileKind::Zeeplevel);
    }
    if eq_ignore_case(&e, &chars_of("zip")) {
        proof {
            reveal_strlit("zip");
            assert(lower_seq("zip"@) =~= "zip"@);
        }
        return Some(SideloadFileKind::Archive);
    }
    proof {
        reveal_strlit("dll");
        reveal_strlit("zeeplevel");
        reveal_strlit("zip");
        assert(lower_seq("dll"@) =~= "dll"@);
        assert(lower_seq("zeeplevel"@) =~= "zeeplevel"@);
        assert(lower_seq("zip"@) =~= "zip"@);
    }
    None
}

/// The path's file has extension `ext` (ASCII case ignored).
pub open spec fn has_extension(path: Seq<char>, ext: Seq<char>) -> bool {
    match extension_spec(file_name_spec(path)) {
        Some(e) => lower_seq(e) == lower_seq(ext),
        None => false,
    }
}

fn has_extension_exec(path: &str, ext: &str) -> (r: bool)
    ensures
        r == has_extension(path@, ext@),
{
    let name = file_name_of(&chars_of(path));
    match extension_of(&name) {
        Some(e) => eq_ignore_case(&e, &chars_of(ext)),
        None => false,
    }
}

pub fn is_zeeplevel_path(path: &str) -> (r: bool)
    ensures
        r == has_extension(path@, "zeeplevel"@),
{
    has_extension_exec(path, "zeeplevel")
}

pub fn is_dll_path(path: &str) -> (r: bool)
    ensures
        r == has_extension(path@, "dll"@),
{
    has_extension_exec(path, "dll")
}

pub fn is_zip_path(path: &str) -> (r: bool)
    ensures
        r == has_extension(path@, "zip"@),
{
    has_extension_exec(path, "zip")
}

/// A loose `.dll` is a plugin, a loose `.zeeplevel` a blueprint.
pub open spec fn root_loose_kind_spec(path: Seq<char>) -> Option<(SideloadTargetKind, SideloadSourceType)> {
    if has_extension(path, "dll"@) {
        Some((SideloadTargetKind::Plugins, SideloadSourceType::Dll))
    } else if has_extension(path, "zeeplevel"@) {
        Some((SideloadTargetKind::Blueprints, SideloadSourceType::Zeeplevel))
    } else {
        None
    }
}

pub fn root_loose_file_kind(path: &str) -> (r: Option<(SideloadTargetKind, SideloadSourceType)>)
    ensures
        r == root_loose_kind_spec(path@),
{
    if is_dll_path(path) {
        Some((SideloadTargetKind::Plugins, SideloadSourceType::Dll))
    } else if is_zeeplevel_path(path) {
        Some((SideloadTargetKind::Blueprints, SideloadSourceType::Zeeplevel))
    } else {
        None
    }
}

/// The source type of a loose file found in a kind folder, when it belongs
/// to that kind.
pub fn loose_file_source_type(path: &str, kind: SideloadTargetKind) -> (r: Option<SideloadSourceType>)
    ensures
        r == (match root_loose_kind_spec(path@) {
            Some((k, t)) => if k == kind {
                Some(t)
            } else {
                None
            },
            None => None,
        }),
{
    match root_loose_file_kind(path) {
        Some((k, t)) => if k == kind {
            Some(t)
        } else {
            None
        },
        None => None,
    }
}

/// The entry folder name for a file: its sanitized stem.
pub open spec fn folder_name_spec(path: Seq<char>) -> Option<Seq<char>> {
    let n = sanitize_spec(stem_spec(file_name_spec(path)));
    if n.len() > 0 {
        Some(n)
    } else {
        None
    }
}

pub fn folder_name_from_source(source_path: &str) -> (r: Result<String, String>)
    ensures
        match folder_name_spec(source_path@) {
            Some(n) => r matches Ok(v) && v@ == n,
            None => r matches Err(m) && m@ == "Did not derive a folder name from the selected file."@,
        },
{
    let stem = stem_of(&file_name_of(&chars_of(source_path)));
    let name = sanitize_mod_name(string_of(&stem).as_str());
    if name.as_str().is_empty() {
        return Err(own("Did not derive a folder name from the selected file."));
    }
    Ok(name)
}

/// The directory part of a slash-separated path (`Path::parent`).
pub open spec fn parent_spec(path: Seq<char>) -> Option<Seq<char>> {
    match last_index_of(path, '/') {
        Some(i) => if i == 0 {
            if path.len() == 1 {
                None
            } else {
                Some("/"@)
            }
        } else {
            Some(path.take(i))
        },
        None => if path.len() == 0 {
            None
        } else {
            Some(Seq::empty())
        },
    }
}

pub(crate) fn parent_of(path: &Vec<char>) -> (r: Option<Vec<char>>)
    ensures
        match r {
            Some(p) => parent_spec(path@) == Some(p@),
            None => parent_spec(path@) is None,
        },
{
    match last_index_of_exec(path, '/') {
        Some(i) => {
            if i == 0 {
                if path.len() == 1 {
                    None
                } else {
                    proof {
                        reveal_strlit("/");
                    }
                    Some(chars_of("/"))
                }
            } else {
                let p = subvec(path, 0, i);
                assert(p@ =~= path@.take(i as int));
                Some(p)
            }
        },
        None => if path.len() == 0 {
            None
        } else {
            Some(Vec::new())
        },
    }
}

/// The folder name for several files: their shared parent folder's
/// sanitized name when they all have the same parent (and it gives a name),
/// else the first file's name.
pub open spec fn folder_name_from_sources_spec(paths: Seq<Seq<char>>) -> Result<Seq<char>, Seq<char>> {
    if paths.len() == 0 {
        Err("No files were selected."@)
    } else {
        let shared = paths.len() > 1 && parent_spec(paths[0]) is Some && forall|i: int|
            0 <= i < paths.len() ==> parent_spec(#[trigger] paths[i]) == parent_spec(paths[0]);
        let from_parent = if shared {
            sanitize_spec(file_name_spec(parent_spec(paths[0])->0))
        } else {
            Seq::empty()
        };
        if from_parent.len() > 0 {
            Ok(from_parent)
        } else {
            match folder_name_spec(paths[0]) {
                Some(n) => Ok(n),
                None => Err("Did not derive a folder name from the selected file."@),
            }
        }
    }
}

pub open spec fn paths_view(paths: Seq<String>) -> Seq<Seq<char>> {
    paths.map_values(|s: String| s@)
}

pub fn folder_name_from_sources(source_paths: &Vec<String>) -> (r: Result<String, String>)
    ensures
        match folder_name_from_sources_spec(paths_view(source_paths@)) {
            Ok(n) => r matches Ok(v) && v@ == n,
            Err(e) => r matches Err(m) && m@ == e,
        },
{
    let ghost pv = paths_view(source_paths@);
    if source_paths.len() == 0 {
        return Err(own("No files were selected."));
    }
    assert(pv[0] == source_paths@[0]@);
    if source_paths.len() > 1 {
        let first = parent_of(&chars_of(source_paths[0].as_str()));
        match first {
            Some(fp) => {
                let mut all_same = true;
                let mut i: usize = 0;
                while i < source_paths.len()
                    invariant
                        i <= source_paths.len(),
                        pv == paths_view(source_paths@),
                        parent_spec(pv[0]) == Some(fp@),
                        all_same == forall|j: int|
                            0 <= j < i ==> parent_spec(#[trigger] pv[j]) == parent_spec(pv[0]),
                    decreases source_paths.len() - i,
                {
                    assert(pv[i as int] == source_paths@[i as int]@);
                    let same = match parent_of(&chars_of(source_paths[i].as_str())) {
                        Some(p) => chars_eq(&p, &fp),
                        None => false,
                    };
                    if !same {
                        all_same = false;
                    }
                    i = i + 1;
                }
                if all_same {
                    let name = sanitize_mod_name(string_of(&file_name_of(&fp)).as_str());
                    if !name.as_str().is_empty() {
                        return Ok(name);
                    }
                }
            },
            None => {},
        }
    }
    folder_name_from_source(source_paths[0].as_str())
}

// ---------------------------------------------------------------------------
// Classification
// ---------------------------------------------------------------------------

/// Files added together must be plugins and levels: both make a mixed set,
/// levels alone blueprints, otherwise plugins.
pub open spec fn classify_loose_spec(paths: Seq<Seq<char>>) -> Result<ArchiveContentKind, Seq<char>> {
    if exists|i: int|
        0 <= i < paths.len() && !has_extension(#[trigger] paths[i], "dll"@) && !has_extension(
            paths[i],
            "zeeplevel"@,
        ) {
        Err("Only .dll and .zeeplevel files can be sideloaded together."@)
    } else {
        let has_dll = exists|i: int| 0 <= i < paths.len() && has_extension(#[trigger] paths[i], "dll"@);
        let has_level = exists|i: int|
            0 <= i < paths.len() && has_extension(#[trigger] paths[i], "zeeplevel"@)
                && !has_extension(paths[i], "dll"@);
        Ok(
            if has_dll && has_level {
                ArchiveContentKind::Mixed
            } else if has_level {
                ArchiveContentKind::BlueprintsOnly
            } else {
                ArchiveContentKind::PluginsOnly
            },
        )
    }
}

pub fn classify_loose_files(source_paths: &Vec<String>) -> (r: Result<ArchiveContentKind, String>)
    ensures
        match classify_loose_spec(paths_view(source_paths@)) {
            Ok(k) => r == Ok::<ArchiveContentKind, String>(k),
            Err(e) => r matches Err(m) && m@ == e,
        },
{
    let ghost pv = paths_view(source_paths@);
    let mut has_dll = false;
    let mut has_level = false;
    let mut i: usize = 0;
    while i < source_paths.len()
        invariant
            i <= source_paths.len(),
            pv == paths_view(source_paths@),
            forall|j: int|
                0 <= j < i ==> has_extension(#[trigger] pv[j], "dll"@) || has_extension(
                    pv[j],
                    "zeeplevel"@,
                ),
            has_dll == exists|j: int| 0 <= j < i && has_extension(#[trigger] pv[j], "dll"@),
            has_level == exists|j: int|
                0 <= j < i && has_extension(#[trigger] pv[j], "zeeplevel"@) && !has_extension(
                    pv[j],
                    "dll"@,
                ),
        decreases source_paths.len() - i,
    {
        assert(pv[i as int] == source_paths@[i as int]@);
        if is_dll_path(source_paths[i].as_str()) {
            has_dll = true;
        } else if is_zeeplevel_path(source_paths[i].as_str()) {
            has_level = true;
        } else {
            return Err(own("Only .dll and .zeeplevel files can be sideloaded together."));
        }
        i = i + 1;
    }
    Ok(
        if has_dll && has_level {
            ArchiveContentKind::Mixed
        } else if has_level {
            ArchiveContentKind::BlueprintsOnly
        } else {
            ArchiveContentKind::PluginsOnly
        },
    )
}

/// Files to link: anything other than plugins and levels, or both of them,
/// needs a target choice.
pub open spec fn classify_link_spec(paths: Seq<Seq<char>>) -> ArchiveContentKind {
    let has_dll = exists|i: int| 0 <= i < paths.len() && has_extension(#[trigger] paths[i], "dll"@);
    let has_level = exists|i: int|
        0 <= i < paths.len() && has_extension(#[trigger] paths[i], "zeeplevel"@) && !has_extension(
            paths[i],
            "dll"@,
        );
    let has_other = exists|i: int|
        0 <= i < paths.len() && !has_extension(#[trigger] paths[i], "dll"@) && !has_extension(
            paths[i],
            "zeeplevel"@,
        );
    if has_other || (has_dll && has_level) {
        ArchiveContentKind::Mixed
    } else if has_level {
        ArchiveContentKind::BlueprintsOnly
    } else {
        ArchiveContentKind::PluginsOnly
    }
}

pub fn classify_link_files(source_paths: &Vec<String>) -> (r: ArchiveContentKind)
    ensures
        r == classify_link_spec(paths_view(source_paths@)),
{
    let ghost pv = paths_view(source_paths@);
    let mut has_dll = false;
    let mut has_level = false;
    let mut has_other = false;
    let mut i: usize = 0;
    while i < source_paths.len()
        invariant
            i <= source_paths.len(),
            pv == paths_view(source_paths@),
            has_dll == exists|j: int| 0 <= j < i && has_extension(#[trigger] pv[j], "dll"@),
            has_level == exists|j: int|
                0 <= j < i && has_extension(#[trigger] pv[j], "zeeplevel"@) && !has_extension(
                    pv[j],
                    "dll"@,
                ),
            has_other == exists|j: int|
                0 <= j < i && !has_extension(#[trigger] pv[j], "dll"@) && !has_extension(
                    pv[j],
                    "zeeplevel"@,
                ),
        decreases source_paths.len() - i,
    {
        assert(pv[i as int] == source_paths@[i as int]@);
        if is_dll_path(source_paths[i].as_str()) {
            has_dll = true;
        } else if is_zeeplevel_path(source_paths[i].as_str()) {
            has_level = true;
        } else {
            has_other = true;
        }
        i = i + 1;
    }
    if has_other || (has_dll && has_level) {
        ArchiveContentKind::Mixed
    } else if has_level {
        ArchiveContentKind::BlueprintsOnly
    } else {
        ArchiveContentKind::PluginsOnly
    }
}

/// Where a set of files goes: plugins and levels have their own folder; a
/// mixed set goes where the user chose, if they did.
pub fn resolve_archive_target(content_kind: ArchiveContentKind, target_kind: Option<SideloadTargetKind>) -> (r:
    Option<SideloadTargetKind>)
    ensures
        r == (match content_kind {
            ArchiveContentKind::PluginsOnly => Some(SideloadTargetKind::Plugins),
            ArchiveContentKind::BlueprintsOnly => Some(SideloadTargetKind::Blueprints),
            ArchiveContentKind::Mixed => target_kind,
        }),
{
    match content_kind {
        ArchiveContentKind::PluginsOnly => Some(SideloadTargetKind::Plugins),
        ArchiveContentKind::BlueprintsOnly => Some(SideloadTargetKind::Blueprints),
        ArchiveContentKind::Mixed => target_kind,
    }
}

/// The kind of what an archive holds, from its file count and whether it
/// has levels and other files.
pub fn archive_content_kind(file_count: u64, has_zeeplevel: bool, has_non_zeeplevel: bool) -> (r:
    Result<ArchiveContentKind, String>)
    ensures
        file_count == 0 ==> (r matches Err(m) && m@ == "Archive contains no files."@),
        file_count > 0 ==> r == Ok::<ArchiveContentKind, String>(
            if has_zeeplevel && has_non_zeeplevel {
                ArchiveContentKind::Mixed
            } else if has_zeeplevel {
                ArchiveContentKind::BlueprintsOnly
            } else {
                ArchiveContentKind::PluginsOnly
            },
        ),
{
    if file_count == 0 {
        return Err(own("Archive contains no files."));
    }
    Ok(
        if has_zeeplevel && has_non_zeeplevel {
            ArchiveContentKind::Mixed
        } else if has_zeeplevel {
            ArchiveContentKind::BlueprintsOnly
        } else {
            ArchiveContentKind::PluginsOnly
        },
    )
}

/// An entry folder with one plugin is a plugin, one level a level, anything
/// else an archive.
pub fn source_type_from_counts(dll_count: u64, zeeplevel_count: u64, other_count: u64) -> (r:
    SideloadSourceType)
    ensures
        r == (if dll_count == 1 && zeeplevel_count == 0 && other_count == 0 {
            SideloadSourceType::Dll
        } else if zeeplevel_count == 1 && dll_count == 0 && other_count == 0 {
            SideloadSourceType::Zeeplevel
        } else {
            SideloadSourceType::Archive
        }),
{
    if dll_count == 1 && zeeplevel_count == 0 && other_count == 0 {
        SideloadSourceType::Dll
    } else if zeeplevel_count == 1 && dll_count == 0 && other_count == 0 {
        SideloadSourceType::Zeeplevel
    } else {
        SideloadSourceType::Archive
    }
}

/// How many of the files are plugins, levels and anything else.
pub open spec fn file_kind_counts(files: Seq<Seq<char>>) -> (nat, nat, nat)
    decreases files.len(),
{
    if files.len() == 0 {
        (0, 0, 0)
    } else {
        let (d, z, o) = file_kind_counts(files.drop_last());
        if has_extension(files.last(), "dll"@) {
            (d + 1, z, o)
        } else if has_extension(files.last(), "zeeplevel"@) {
            (d, z + 1, o)
        } else {
            (d, z, o + 1)
        }
    }
}

/// The source type of an entry folder from all the files under it.
pub fn source_type_of_files(files: &Vec<String>) -> (r: SideloadSourceType)
    ensures
        ({
            let (d, z, o) = file_kind_counts(paths_view(files@));
            r == (if d == 1 && z == 0 && o == 0 {
                SideloadSourceType::Dll
            } else if z == 1 && d == 0 && o == 0 {
                SideloadSourceType::Zeeplevel
            } else {
                SideloadSourceType::Archive
            })
        }),
{
    let ghost fv = paths_view(files@);
    let mut d: u64 = 0;
    let mut z: u64 = 0;
    let mut o: u64 = 0;
    let mut i: usize = 0;
    assert(fv.take(0) =~= Seq::<Seq<char>>::empty());
    while i < files.len()
        invariant
            i <= files.len(),
            fv == paths_view(files@),
            (d as nat, z as nat, o as nat) == file_kind_counts(fv.take(i as int)),
            d + z + o == i,
            i <= usize::MAX,
        decreases files.len() - i,
    {
        assert(fv.take(i + 1).drop_last() =~= fv.take(i as int));
        assert(fv.take(i + 1).last() == files@[i as int]@);
        assert(d + z + o < u64::MAX) by {
            assert(usize::MAX <= u64::MAX);
        }
        if is_dll_path(files[i].as_str()) {
            d = d + 1;
        } else if is_zeeplevel_path(files[i].as_str()) {
            z = z + 1;
        } else {
            o = o + 1;
        }
        i = i + 1;
    }
    assert(fv.take(i as int) =~= fv);
    source_type_from_counts(d, z, o)
}

pub open spec fn is_level_file(p: Seq<char>) -> bool {
    has_extension(p, "zeeplevel"@)
}

/// What an extracted archive holds, from all the files under it.
pub fn archive_kind_of_files(files: &Vec<String>) -> (r: Result<ArchiveContentKind, String>)
    ensures
        files@.len() == 0 ==> (r matches Err(m) && m@ == "Archive contains no files."@),
        files@.len() > 0 ==> r == Ok::<ArchiveContentKind, String>(
            {
                let levels = exists|i: int|
                    0 <= i < files@.len() && is_level_file(#[trigger] files@[i]@);
                let others = exists|i: int|
                    0 <= i < files@.len() && !is_level_file(#[trigger] files@[i]@);
                if levels && others {
                    ArchiveContentKind::Mixed
                } else if levels {
                    ArchiveContentKind::BlueprintsOnly
                } else {
                    ArchiveContentKind::PluginsOnly
                }
            },
        ),
{
    let mut levels = false;
    let mut others = false;
    let mut i: usize = 0;
    while i < files.len()
        invariant
            i <= files.len(),
            levels == exists|j: int| 0 <= j < i && is_level_file(#[trigger] files@[j]@),
            others == exists|j: int| 0 <= j < i && !is_level_file(#[trigger] files@[j]@),
        decreases files.len() - i,
    {
        if is_zeeplevel_path(files[i].as_str()) {
            levels = true;
        } else {
            others = true;
        }
        i = i + 1;
    }
    let count: u64 = if files.len() == 0 {
        0
    } else {
        1
    };
    archive_content_kind(count, levels, others)
}

/// A folder from older versions (directly in the sideload root) holds
/// blueprints when it has levels and no plugins, else plugins.
pub fn infer_legacy_target_kind(has_zeeplevel: bool, has_dll: bool) -> (r: SideloadTargetKind)
    ensures
        r == (if has_zeeplevel && !has_dll {
            SideloadTargetKind::Blueprints
        } else {
            SideloadTargetKind::Plugins
        }),
{
    if has_zeeplevel && !has_dll {
        SideloadTargetKind::Blueprints
    } else {
        SideloadTargetKind::Plugins
    }
}

/// The target of a folder from older versions, from all the files under it.
pub fn legacy_target_kind_of_files(files: &Vec<String>) -> (r: SideloadTargetKind)
    ensures
        r == (if (exists|i: int| 0 <= i < files@.len() && is_level_file(#[trigger] files@[i]@)) && !(
        exists|i: int| 0 <= i < files@.len() && has_extension(#[trigger] files@[i]@, "dll"@)) {
            SideloadTargetKind::Blueprints
        } else {
            SideloadTargetKind::Plugins
        }),
{
    let mut levels = false;
    let mut dlls = false;
    let mut i: usize = 0;
    while i < files.len()
        invariant
            i <= files.len(),
            levels == exists|j: int| 0 <= j < i && is_level_file(#[trigger] files@[j]@),
            dlls == exists|j: int| 0 <= j < i && has_extension(#[trigger] files@[j]@, "dll"@),
        decreases files.len() - i,
    {
        if is_zeeplevel_path(files[i].as_str()) {
            levels = true;
        }
        if is_dll_path(files[i].as_str()) {
            dlls = true;
        }
        i = i + 1;
    }
    infer_legacy_target_kind(levels, dlls)
}

/// When an entry was added, as shown: its modification time (nanoseconds
/// since the Unix epoch, if the file system gave one) as RFC 3339 text, for
/// times in years 0..=9999.
pub fn added_at_text(modified_nanos: Option<i128>) -> (r: Option<String>)
    ensures
        opt_view(r) == (match modified_nanos {
            Some(n) => if crate::modio_client::RFC3339_MIN_NANOS <= n <= crate::modio_client::RFC3339_MAX_NANOS {
                Some(crate::modio_client::rfc3339_utc_nanos(n))
            } else {
                None
            },
            None => None,
        }),
{
    match modified_nanos {
        Some(n) => crate::modio_client::format_unix_nanos_rfc3339(n),
        None => None,
    }
}

/// The entry for a folder in a kind directory.
pub fn make_entry(
    target_kind: SideloadTargetKind,
    folder_name: &str,
    source_type: SideloadSourceType,
    linked: bool,
    added_at: Option<String>,
) -> (r: SideloadedEntry)
    ensures
        r.id@ == kind_dir_spec(target_kind) + "/"@ + folder_name@,
        r.name@ == folder_name@,
        r.target_kind == target_kind,
        r.source_type == source_type,
        r.linked == linked,
        r.added_at == added_at,
{
    SideloadedEntry {
        id: entry_id(target_kind, folder_name),
        name: own(folder_name),
        target_kind,
        source_type,
        linked,
        added_at,
    }
}

/// The name shown for a loose file: its stem, or the whole name when the
/// stem is empty.
pub open spec fn loose_file_display_name(file_name: Seq<char>) -> Seq<char> {
    let stem = stem_spec(file_name);
    if stem.len() > 0 {
        stem
    } else {
        file_name
    }
}

fn loose_name(file_name: &str) -> (r: String)
    ensures
        r@ == loose_file_display_name(file_name@),
{
    let stem = stem_of(&chars_of(file_name));
    if stem.len() > 0 {
        string_of(&stem)
    } else {
        own(file_name)
    }
}

/// The entry for a loose file in a kind directory.
pub fn make_loose_file_entry(
    target_kind: SideloadTargetKind,
    file_name: &str,
    source_type: SideloadSourceType,
    linked: bool,
    added_at: Option<String>,
) -> (r: SideloadedEntry)
    ensures
        r.id@ == kind_dir_spec(target_kind) + "/"@ + file_name@,
        r.name@ == loose_file_display_name(file_name@),
        r.target_kind == target_kind,
        r.source_type == source_type,
        r.linked == linked,
        r.added_at == added_at,
{
    SideloadedEntry {
        id: entry_id(target_kind, file_name),
        name: loose_name(file_name),
        target_kind,
        source_type,
        linked,
        added_at,
    }
}

/// What a listing of the sideload root makes of one of its entries.
pub enum RootEntry {
    /// The `Plugins` and `Blueprints` folders hold entries of their own.
    KindFolder,
    /// A folder from older versions: one entry.
    LegacyFolder,
    /// A loose plugin or level file: one entry of that kind.
    LooseFile { target_kind: SideloadTargetKind, source_type: SideloadSourceType },
    /// Anything else is not listed.
    Other,
}

pub fn classify_root_entry(name: &str, is_dir: bool, is_file: bool) -> (r: RootEntry)
    ensures
        is_dir ==> (if name@ == PLUGINS_DIR@ || name@ == BLUEPRINTS_DIR@ {
            r is KindFolder
        } else {
            r is LegacyFolder
        }),
        !is_dir && is_file ==> match root_loose_kind_spec(name@) {
            Some((k, t)) => r == (RootEntry::LooseFile { target_kind: k, source_type: t }),
            None => r is Other,
        },
        !is_dir && !is_file ==> r is Other,
{
    if is_dir {
        let n = chars_of(name);
        if chars_eq(&n, &chars_of(PLUGINS_DIR)) || chars_eq(&n, &chars_of(BLUEPRINTS_DIR)) {
            return RootEntry::KindFolder;
        }
        return RootEntry::LegacyFolder;
    }
    if is_file {
        match root_loose_file_kind(name) {
            Some((target_kind, source_type)) => RootEntry::LooseFile { target_kind, source_type },
            None => RootEntry::Other,
        }
    } else {
        RootEntry::Other
    }
}

/// The entry for a loose file directly in the sideload root (older layout).
pub fn make_root_loose_file_entry(
    file_name: &str,
    target_kind: SideloadTargetKind,
    source_type: SideloadSourceType,
    linked: bool,
    added_at: Option<String>,
) -> (r: SideloadedEntry)
    ensures
        r.id@ == file_name@,
        r.name@ == loose_file_display_name(file_name@),
        r.target_kind == target_kind,
        r.source_type == source_type,
        r.linked == linked,
        r.added_at == added_at,
{
    SideloadedEntry {
        id: own(file_name),
        name: loose_name(file_name),
        target_kind,
        source_type,
        linked,
        added_at,
    }
}


// ---------------------------------------------------------------------------
// Adding mods
// ---------------------------------------------------------------------------

pub const LINKED_ZIP_ERROR: &'static str =
    "Zip archives must not be linked. Use Choose files to copy and extract archives.";

/// What adding the selected file(s) must do next.
pub enum SideloadPlan {
    /// Copy (or link) one file into a new entry folder.
    SingleFile {
        target: SideloadTargetKind,
        source_type: SideloadSourceType,
        base_name: String,
        linked: bool,
    },
    /// Extract the archive, then decide from its contents where it goes.
    ExtractArchive { base_name: String },
    /// Put all files into one new entry folder.
    LooseFiles { target: SideloadTargetKind, base_name: String, linked: bool },
    /// The user must choose where the files go.
    Choose(AddSideloadedModResult),
}

fn one_path(path: &str) -> (r: Vec<String>)
    ensures
        paths_view(r@) == seq![path@],
{
    let mut v: Vec<String> = Vec::new();
    v.push(own(path));
    assert(paths_view(v@) =~= seq![path@]);
    v
}

/// The extension's kind of the file a path names.
pub open spec fn path_kind(path: Seq<char>) -> Option<SideloadFileKind> {
    match extension_spec(file_name_spec(path)) {
        Some(e) => file_kind_spec(e),
        None => None,
    }
}

/// Plans adding one selected file. Copies: plugins and levels go to their
/// folders, zip archives are extracted first, other files are refused.
/// Links: zip archives are refused, plugins and levels go to their folders,
/// anything else goes where the user chose (who is asked when they have not).
pub fn plan_single_sideload(
    source_path: &str,
    exists: bool,
    target_kind: Option<SideloadTargetKind>,
    use_symlinks: bool,
) -> (r: Result<SideloadPlan, String>)
    ensures
        !exists ==> (r matches Err(m) && m@ == "Selected file does not exist."@),
        exists && use_symlinks && has_extension(source_path@, "zip"@) ==> (r matches Err(m) && m@
            == LINKED_ZIP_ERROR@),
        exists && use_symlinks && !has_extension(source_path@, "zip"@) ==> match folder_name_spec(
            source_path@,
        ) {
            None => r matches Err(m) && m@ == "Did not derive a folder name from the selected file."@,
            Some(base) => match path_kind(source_path@) {
                Some(SideloadFileKind::Dll) => r matches Ok(SideloadPlan::SingleFile { target, source_type, base_name, linked })
                    && target == SideloadTargetKind::Plugins && source_type == SideloadSourceType::Dll
                    && base_name@ == base && linked,
                Some(SideloadFileKind::Zeeplevel) => r matches Ok(SideloadPlan::SingleFile { target, source_type, base_name, linked })
                    && target == SideloadTargetKind::Blueprints && source_type
                    == SideloadSourceType::Zeeplevel && base_name@ == base && linked,
                _ => match target_kind {
                    Some(t) => r matches Ok(SideloadPlan::SingleFile { target, source_type, base_name, linked })
                        && target == t && source_type == SideloadSourceType::Archive && base_name@ == base
                        && linked,
                    None => r matches Ok(SideloadPlan::Choose(AddSideloadedModResult::NeedsTargetChoice { folder_name, source_paths }))
                        && folder_name@ == base && paths_view(source_paths@) == seq![source_path@],
                },
            },
        },
        exists && !use_symlinks ==> match extension_spec(file_name_spec(source_path@)) {
            None => r matches Err(m) && m@ == "Selected file must be a .dll, .zeeplevel, or .zip file."@,
            Some(e) => match file_kind_spec(e) {
                None => r matches Err(m) && m@ == "Only .dll, .zeeplevel, and .zip files can be sideloaded."@,
                Some(k) => match folder_name_spec(source_path@) {
                    None => r matches Err(m) && m@
                        == "Did not derive a folder name from the selected file."@,
                    Some(base) => match k {
                        SideloadFileKind::Dll => r matches Ok(SideloadPlan::SingleFile { target, source_type, base_name, linked })
                            && target == SideloadTargetKind::Plugins && source_type
                            == SideloadSourceType::Dll && base_name@ == base && !linked,
                        SideloadFileKind::Zeeplevel => r matches Ok(SideloadPlan::SingleFile { target, source_type, base_name, linked })
                            && target == SideloadTargetKind::Blueprints && source_type
                            == SideloadSourceType::Zeeplevel && base_name@ == base && !linked,
                        SideloadFileKind::Archive => r matches Ok(SideloadPlan::ExtractArchive { base_name })
                            && base_name@ == base,
                    },
                },
            },
        },
        exists && !use_symlinks && has_extension(source_path@, "zip"@) && folder_name_spec(source_path@) is Some
            ==> (r matches Ok(SideloadPlan::ExtractArchive { base_name }) && Some(base_name@) == folder_name_spec(
            source_path@,
        )),
{
    proof {
        if has_extension(source_path@, "zip"@) {
            lemma_zip_path_is_archive(source_path@);
        }
    }
    if !exists {
        return Err(own("Selected file does not exist."));
    }
    let name = file_name_of(&chars_of(source_path));
    if use_symlinks {
        if is_zip_path(source_path) {
            return Err(own(LINKED_ZIP_ERROR));
        }
        let base_name = match folder_name_from_source(source_path) {
            Ok(b) => b,
            Err(e) => return Err(e),
        };
        let kind = match extension_of(&name) {
            Some(e) => file_kind_for_extension(string_of(&e).as_str()),
            None => None,
        };
        return match kind {
            Some(SideloadFileKind::Dll) => Ok(
                SideloadPlan::SingleFile {
                    target: SideloadTargetKind::Plugins,
                    source_type: SideloadSourceType::Dll,
                    base_name,
                    linked: true,
                },
            ),
            Some(SideloadFileKind::Zeeplevel) => Ok(
                SideloadPlan::SingleFile {
                    target: SideloadTargetKind::Blueprints,
                    source_type: SideloadSourceType::Zeeplevel,
                    base_name,
                    linked: true,
                },
            ),
            _ => match target_kind {
                Some(t) => Ok(
                    SideloadPlan::SingleFile {
                        target: t,
                        source_type: SideloadSourceType::Archive,
                        base_name,
                        linked: true,
                    },
                ),
                None => Ok(
                    SideloadPlan::Choose(
                        AddSideloadedModResult::NeedsTargetChoice {
                            folder_name: base_name,
                            source_paths: one_path(source_path),
                        },
                    ),
                ),
            },
        };
    }
    let ext = match extension_of(&name) {
        Some(e) => e,
        None => return Err(own("Selected file must be a .dll, .zeeplevel, or .zip file.")),
    };
    let kind = match file_kind_for_extension(string_of(&ext).as_str()) {
        Some(k) => k,
        None => return Err(own("Only .dll, .zeeplevel, and .zip files can be sideloaded.")),
    };
    let base_name = match folder_name_from_source(source_path) {
        Ok(b) => b,
        Err(e) => return Err(e),
    };
    match kind {
        SideloadFileKind::Dll => Ok(
            SideloadPlan::SingleFile {
                target: SideloadTargetKind::Plugins,
                source_type: SideloadSourceType::Dll,
                base_name,
                linked: false,
            },
        ),
        SideloadFileKind::Zeeplevel => Ok(
            SideloadPlan::SingleFile {
                target: SideloadTargetKind::Blueprints,
                source_type: SideloadSourceType::Zeeplevel,
                base_name,
                linked: false,
            },
        ),
        SideloadFileKind::Archive => Ok(SideloadPlan::ExtractArchive { base_name }),
    }
}

/// After extracting an archive: where it goes, or the question to ask.
pub fn archive_outcome(
    content_kind: ArchiveContentKind,
    target_kind: Option<SideloadTargetKind>,
    base_name: &str,
    source_path: &str,
) -> (r: Result<SideloadTargetKind, AddSideloadedModResult>)
    ensures
        match content_kind {
            ArchiveContentKind::PluginsOnly => r == Ok::<SideloadTargetKind, AddSideloadedModResult>(
                SideloadTargetKind::Plugins,
            ),
            ArchiveContentKind::BlueprintsOnly => r == Ok::<
                SideloadTargetKind,
                AddSideloadedModResult,
            >(SideloadTargetKind::Blueprints),
            ArchiveContentKind::Mixed => match target_kind {
                Some(t) => r == Ok::<SideloadTargetKind, AddSideloadedModResult>(t),
                None => r matches Err(AddSideloadedModResult::NeedsTargetChoice { folder_name, source_paths })
                    && folder_name@ == base_name@ && paths_view(source_paths@) == seq![source_path@],
            },
        },
{
    match resolve_archive_target(content_kind, target_kind) {
        Some(t) => Ok(t),
        None => Err(
            AddSideloadedModResult::NeedsTargetChoice {
                folder_name: own(base_name),
                source_paths: one_path(source_path),
            },
        ),
    }
}

/// The first problem with one of several selected files: a missing file;
/// when linking, a zip archive; when copying, a file that is not a plugin
/// or level (zip archives must come alone).
pub open spec fn multi_file_problem(path: Seq<char>, exists: bool, use_symlinks: bool) -> Option<Seq<char>> {
    if !exists {
        Some("Selected file does not exist: "@ + path)
    } else if use_symlinks {
        if has_extension(path, "zip"@) {
            Some(LINKED_ZIP_ERROR@)
        } else {
            None
        }
    } else {
        match extension_spec(file_name_spec(path)) {
            None => Some("Selected files must be .dll or .zeeplevel files."@),
            Some(e) => match file_kind_spec(e) {
                None => Some("Only .dll and .zeeplevel files can be sideloaded together."@),
                Some(SideloadFileKind::Archive) => Some(
                    "Zip archives must be sideloaded one at a time. Drop the zip alone, or select only .dll and .zeeplevel files."@,
                ),
                Some(_) => None,
            },
        }
    }
}

fn multi_file_check(path: &str, exists: bool, use_symlinks: bool) -> (r: Option<String>)
    ensures
        match multi_file_problem(path@, exists, use_symlinks) {
            Some(m) => r matches Some(v) && v@ == m,
            None => r is None,
        },
{
    if !exists {
        let mut m = chars_of("Selected file does not exist: ");
        append_all(&mut m, &chars_of(path));
        return Some(string_of(&m));
    }
    if use_symlinks {
        if is_zip_path(path) {
            return Some(own(LINKED_ZIP_ERROR));
        }
        return None;
    }
    let name = file_name_of(&chars_of(path));
    let ext = match extension_of(&name) {
        Some(e) => e,
        None => return Some(own("Selected files must be .dll or .zeeplevel files.")),
    };
    match file_kind_for_extension(string_of(&ext).as_str()) {
        None => Some(own("Only .dll and .zeeplevel files can be sideloaded together.")),
        Some(SideloadFileKind::Archive) => Some(
            own(
                "Zip archives must be sideloaded one at a time. Drop the zip alone, or select only .dll and .zeeplevel files.",
            ),
        ),
        Some(_) => None,
    }
}

/// Plans adding several files as one entry: every file is checked in turn
/// (the first problem is the error), then the set is classified, named, and
/// placed in its folder or left to the user's choice.
pub fn plan_multi_sideload(
    source_paths: &Vec<String>,
    exists: &Vec<bool>,
    target_kind: Option<SideloadTargetKind>,
    use_symlinks: bool,
) -> (r: Result<SideloadPlan, String>)
    requires
        exists@.len() == source_paths@.len(),
    ensures
        forall|i: int|
            0 <= i < source_paths@.len() && (#[trigger] multi_file_problem(
                source_paths@[i]@,
                exists@[i],
                use_symlinks,
            )) is Some && (forall|j: int|
                0 <= j < i ==> multi_file_problem(source_paths@[j]@, exists@[j], use_symlinks) is None)
                ==> (r matches Err(m) && Some(m@) == multi_file_problem(
                source_paths@[i]@,
                exists@[i],
                use_symlinks,
            )),
        (forall|i: int|
            0 <= i < source_paths@.len() ==> (#[trigger] multi_file_problem(
                source_paths@[i]@,
                exists@[i],
                use_symlinks,
            )) is None) ==> {
            let content = if use_symlinks {
                Ok(classify_link_spec(paths_view(source_paths@)))
            } else {
                classify_loose_spec(paths_view(source_paths@))
            };
            match content {
                Err(e) => r matches Err(m) && m@ == e,
                Ok(kind) => match folder_name_from_sources_spec(paths_view(source_paths@)) {
                    Err(e) => r matches Err(m) && m@ == e,
                    Ok(base) => match (match kind {
                        ArchiveContentKind::PluginsOnly => Some(SideloadTargetKind::Plugins),
                        ArchiveContentKind::BlueprintsOnly => Some(SideloadTargetKind::Blueprints),
                        ArchiveContentKind::Mixed => target_kind,
                    }) {
                        Some(t) => r matches Ok(SideloadPlan::LooseFiles { target, base_name, linked })
                            && target == t && base_name@ == base && linked == use_symlinks,
                        None => r matches Ok(SideloadPlan::Choose(AddSideloadedModResult::NeedsTargetChoice { folder_name, source_paths: paths }))
                            && folder_name@ == base && paths_view(paths@) == paths_view(source_paths@),
                    },
                },
            }
        },
{
    let mut i: usize = 0;
    while i < source_paths.len()
        invariant
            i <= source_paths.len(),
            exists@.len() == source_paths@.len(),
            forall|j: int|
                0 <= j < i ==> (#[trigger] multi_file_problem(
                    source_paths@[j]@,
                    exists@[j],
                    use_symlinks,
                )) is None,
        decreases source_paths.len() - i,
    {
        match multi_file_check(source_paths[i].as_str(), exists[i], use_symlinks) {
            Some(m) => return Err(m),
            None => {},
        }
        i = i + 1;
    }
    let content_kind = if use_symlinks {
        classify_link_files(source_paths)
    } else {
        match classify_loose_files(source_paths) {
            Ok(k) => k,
            Err(e) => return Err(e),
        }
    };
    let base_name = match folder_name_from_sources(source_paths) {
        Ok(b) => b,
        Err(e) => return Err(e),
    };
    match resolve_archive_target(content_kind, target_kind) {
        Some(t) => Ok(SideloadPlan::LooseFiles { target: t, base_name, linked: use_symlinks }),
        None => {
            let mut paths: Vec<String> = Vec::new();
            let mut k: usize = 0;
            while k < source_paths.len()
                invariant
                    k <= source_paths.len(),
                    paths@.len() == k,
                    forall|j: int| 0 <= j < k ==> (#[trigger] paths@[j])@ == source_paths@[j]@,
                decreases source_paths.len() - k,
            {
                paths.push(own(source_paths[k].as_str()));
                k = k + 1;
            }
            assert(paths_view(paths@) =~= paths_view(source_paths@));
            Ok(
                SideloadPlan::Choose(
                    AddSideloadedModResult::NeedsTargetChoice { folder_name: base_name, source_paths: paths },
                ),
            )
        },
    }
}


// ---------------------------------------------------------------------------
// Free names
// ---------------------------------------------------------------------------

/// Among `hi - lo` distinct names, more than `taken` holds, one is free.
proof fn lemma_some_free(taken: Seq<Seq<char>>, f: spec_fn(int) -> Seq<char>, lo: int, hi: int)
    requires
        hi - lo > taken.len(),
        forall|a: int, b: int| lo <= a < hi && lo <= b < hi && a != b ==> #[trigger] f(a) != #[trigger] f(b),
    ensures
        exists|n: int| lo <= n < hi && !taken.contains(#[trigger] f(n)),
    decreases taken.len(),
{
    if !taken.contains(f(lo)) {
        assert(lo <= lo < hi && !taken.contains(f(lo)));
    } else {
        let k = choose|k: int| 0 <= k < taken.len() && taken[k] == f(lo);
        let rest = taken.remove(k);
        lemma_some_free(rest, f, lo + 1, hi);
        let n = choose|n: int| lo + 1 <= n < hi && !rest.contains(#[trigger] f(n));
        if taken.contains(f(n)) {
            let j = choose|j: int| 0 <= j < taken.len() && taken[j] == f(n);
            assert(j != k);
            if j < k {
                assert(rest[j] == f(n));
            } else {
                assert(rest[j - 1] == f(n));
            }
        }
        assert(lo <= n < hi && !taken.contains(f(n)));
    }
}

proof fn lemma_dec_injective(a: u64, b: u64)
    requires
        dec_seq(a as nat) == dec_seq(b as nat),
    ensures
        a == b,
{
    lemma_parse_dec(a);
    lemma_parse_dec(b);
}

/// `<base>_<n>`.
pub open spec fn numbered_name(base: Seq<char>, n: int) -> Seq<char> {
    base + "_"@ + dec_seq(n as nat)
}

/// `<stem>_<n>` followed by `.<extension>` when there is one.
pub open spec fn numbered_file_name(stem: Seq<char>, ext: Option<Seq<char>>, n: int) -> Seq<char> {
    stem + "_"@ + dec_seq(n as nat) + match ext {
        Some(e) => "."@ + e,
        None => Seq::empty(),
    }
}

proof fn lemma_numbered_file_injective(stem: Seq<char>, ext: Option<Seq<char>>, a: int, b: int)
    requires
        0 <= a <= u64::MAX,
        0 <= b <= u64::MAX,
        numbered_file_name(stem, ext, a) == numbered_file_name(stem, ext, b),
    ensures
        a == b,
{
    let tail = match ext {
        Some(e) => "."@ + e,
        None => Seq::<char>::empty(),
    };
    let x = numbered_file_name(stem, ext, a);
    let da = dec_seq(a as nat);
    let db = dec_seq(b as nat);
    let p = stem + "_"@;
    assert(x.len() == p.len() + da.len() + tail.len());
    assert(x.len() == p.len() + db.len() + tail.len());
    assert(x.subrange(p.len() as int, (p.len() + da.len()) as int) =~= da);
    assert(numbered_file_name(stem, ext, b).subrange(p.len() as int, (p.len() + db.len()) as int) =~= db);
    lemma_dec_injective(a as u64, b as u64);
}

fn contains_name(names: &Vec<String>, name: &Vec<char>) -> (r: bool)
    ensures
        r == paths_view(names@).contains(name@),
{
    let mut i: usize = 0;
    while i < names.len()
        invariant
            i <= names.len(),
            forall|j: int| 0 <= j < i ==> names@[j]@ != name@,
        decreases names.len() - i,
    {
        if chars_eq(&chars_of(names[i].as_str()), name) {
            assert(paths_view(names@)[i as int] == name@);
            return true;
        }
        i = i + 1;
    }
    assert(!paths_view(names@).contains(name@)) by {
        if paths_view(names@).contains(name@) {
            let j = choose|j: int| 0 <= j < paths_view(names@).len() && paths_view(names@)[j] == name@;
            assert(names@[j]@ == name@);
        }
    }
    false
}

/// The stem used to number a file name: `file` when the name has none.
pub open spec fn numbering_stem(name: Seq<char>) -> Seq<char> {
    if name.len() == 0 || name == ".."@ {
        "file"@
    } else {
        stem_spec(name)
    }
}

/// A name for the file in a folder holding `existing`: the name itself when
/// free, else the first free `<stem>_<n>.<ext>` counting from 2.
pub fn unique_dest_file_name(existing: &Vec<String>, file_name: &str) -> (r: String)
    requires
        existing@.len() < u64::MAX - 2,
    ensures
        !paths_view(existing@).contains(file_name@) ==> r@ == file_name@,
        paths_view(existing@).contains(file_name@) ==> exists|n: int|
            2 <= n && r@ == numbered_file_name(
                numbering_stem(file_name@),
                extension_spec(file_name@),
                n,
            ) && !paths_view(existing@).contains(r@) && forall|m: int|
                2 <= m < n ==> paths_view(existing@).contains(
                    #[trigger] numbered_file_name(
                        numbering_stem(file_name@),
                        extension_spec(file_name@),
                        m,
                    ),
                ),
{
    let name = chars_of(file_name);
    if !contains_name(existing, &name) {
        return own(file_name);
    }
    let stem = if name.len() == 0 || chars_eq(&name, &chars_of("..")) {
        chars_of("file")
    } else {
        stem_of(&name)
    };
    let ext = extension_of(&name);
    let ghost ev = match &ext {
        Some(e) => Some(e@),
        None => None::<Seq<char>>,
    };
    let ghost f = |n: int| numbered_file_name(stem@, ev, n);
    let ghost taken = paths_view(existing@);
    let mut suffix: u64 = 2;
    loop
        invariant
            2 <= suffix <= existing@.len() + 2,
            existing@.len() < u64::MAX - 2,
            taken == paths_view(existing@),
            taken.len() == existing@.len(),
            f == (|n: int| numbered_file_name(stem@, ev, n)),
            stem@ == numbering_stem(file_name@),
            ev == extension_spec(file_name@),
            ev == (match ext {
                Some(e) => Some(e@),
                None => None,
            }),
            taken.contains(file_name@),
            forall|m: int| 2 <= m < suffix ==> taken.contains(#[trigger] f(m)),
        decreases existing@.len() + 2 - suffix,
    {
        let mut candidate = subvec(&stem, 0, stem.len());
        candidate.push('_');
        append_all(&mut candidate, &u64_to_dec(suffix));
        match &ext {
            Some(e) => {
                candidate.push('.');
                append_all(&mut candidate, e);
            },
            None => {},
        }
        proof {
            reveal_strlit("_");
            reveal_strlit(".");
        }
        assert(candidate@ =~= f(suffix as int));
        if !contains_name(existing, &candidate) {
            let res = string_of(&candidate);
            proof {
                assert forall|m: int| 2 <= m < suffix implies taken.contains(
                    #[trigger] numbered_file_name(numbering_stem(file_name@), extension_spec(file_name@), m),
                ) by {
                    assert(taken.contains(f(m)));
                }
            }
            return res;
        }
        proof {
            if suffix == existing@.len() + 2 {
                assert forall|a: int, b: int| 2 <= a < suffix + 1 && 2 <= b < suffix + 1 && a != b implies #[trigger] f(a) != #[trigger] f(b) by {
                    if f(a) == f(b) {
                        lemma_numbered_file_injective(stem@, ev, a, b);
                    }
                }
                lemma_some_free(taken, f, 2, suffix + 1);
                let n = choose|n: int| 2 <= n < suffix + 1 && !taken.contains(#[trigger] f(n));
                if n < suffix {
                    assert(taken.contains(f(n)));
                }
            }
        }
        suffix = suffix + 1;
    }
}

proof fn lemma_numbered_injective(base: Seq<char>, a: int, b: int)
    requires
        0 <= a <= u64::MAX,
        0 <= b <= u64::MAX,
        numbered_name(base, a) == numbered_name(base, b),
    ensures
        a == b,
{
    let p = base + "_"@;
    let da = dec_seq(a as nat);
    let db = dec_seq(b as nat);
    assert(numbered_name(base, a).skip(p.len() as int) =~= da);
    assert(numbered_name(base, b).skip(p.len() as int) =~= db);
    lemma_dec_injective(a as u64, b as u64);
}

/// A folder name not in `existing`: the base name when free, else the
/// first free `<base>_<n>` counting from 2.
pub fn unique_folder_name(existing: &Vec<String>, base_name: &str) -> (r: String)
    requires
        existing@.len() < u64::MAX - 2,
    ensures
        !paths_view(existing@).contains(base_name@) ==> r@ == base_name@,
        paths_view(existing@).contains(base_name@) ==> exists|n: int|
            2 <= n && r@ == numbered_name(base_name@, n) && !paths_view(existing@).contains(r@)
                && forall|m: int|
                2 <= m < n ==> paths_view(existing@).contains(#[trigger] numbered_name(base_name@, m)),
{
    let base = chars_of(base_name);
    if !contains_name(existing, &base) {
        return own(base_name);
    }
    let ghost f = |n: int| numbered_name(base_name@, n);
    let ghost taken = paths_view(existing@);
    let mut suffix: u64 = 2;
    loop
        invariant
            2 <= suffix <= existing@.len() + 2,
            existing@.len() < u64::MAX - 2,
            taken == paths_view(existing@),
            taken.len() == existing@.len(),
            base@ == base_name@,
            taken.contains(base_name@),
            f == (|n: int| numbered_name(base_name@, n)),
            forall|m: int| 2 <= m < suffix ==> taken.contains(#[trigger] f(m)),
        decreases existing@.len() + 2 - suffix,
    {
        let mut candidate = subvec(&base, 0, base.len());
        candidate.push('_');
        append_all(&mut candidate, &u64_to_dec(suffix));
        proof {
            reveal_strlit("_");
        }
        assert(candidate@ =~= f(suffix as int));
        if !contains_name(existing, &candidate) {
            let res = string_of(&candidate);
            proof {
                assert forall|m: int| 2 <= m < suffix implies taken.contains(
                    #[trigger] numbered_name(base_name@, m),
                ) by {
                    assert(taken.contains(f(m)));
                }
            }
            return res;
        }
        proof {
            if suffix == existing@.len() + 2 {
                assert forall|a: int, b: int| 2 <= a < suffix + 1 && 2 <= b < suffix + 1 && a != b implies #[trigger] f(a) != #[trigger] f(b) by {
                    if f(a) == f(b) {
                        lemma_numbered_injective(base_name@, a, b);
                    }
                }
                lemma_some_free(taken, f, 2, suffix + 1);
                let n = choose|n: int| 2 <= n < suffix + 1 && !taken.contains(#[trigger] f(n));
                if n < suffix {
                    assert(taken.contains(f(n)));
                }
            }
        }
        suffix = suffix + 1;
    }
}

// ---------------------------------------------------------------------------
// Listing order
// ---------------------------------------------------------------------------

/// Entry `a` is listed at or before entry `b`: by ASCII-lowercased name.
pub open spec fn name_le(a: SideloadedEntry, b: SideloadedEntry) -> bool {
    lex_le(lower_seq(a.name@), lower_seq(b.name@))
}

/// How many leading entries of `sorted` are listed at or before `x`.
pub open spec fn name_insert_pos(sorted: Seq<SideloadedEntry>, x: SideloadedEntry) -> int
    decreases sorted.len(),
{
    if sorted.len() > 0 && name_le(sorted[0], x) {
        1 + name_insert_pos(sorted.skip(1), x)
    } else {
        0
    }
}

/// The entries ordered by lowercased name, a stable sort: each entry goes
/// after the earlier ones listed at or before it.
pub open spec fn sort_by_name_spec(s: Seq<SideloadedEntry>) -> Seq<SideloadedEntry>
    decreases s.len(),
{
    if s.len() == 0 {
        s
    } else {
        let t = sort_by_name_spec(s.drop_last());
        let k = name_insert_pos(t, s.last());
        t.take(k).push(s.last()) + t.skip(k)
    }
}

proof fn lemma_name_insert_pos_bounds(t: Seq<SideloadedEntry>, x: SideloadedEntry)
    ensures
        0 <= name_insert_pos(t, x) <= t.len(),
    decreases t.len(),
{
    if t.len() > 0 {
        lemma_name_insert_pos_bounds(t.skip(1), x);
    }
}

/// Lists the entries by name, ignoring ASCII case.
pub fn sort_entries_by_name(entries: Vec<SideloadedEntry>) -> (r: Vec<SideloadedEntry>)
    ensures
        r@ == sort_by_name_spec(entries@),
{
    let ghost orig = entries@;
    assert(orig.len() == entries.len());
    let mut rest = entries;
    let mut out: Vec<SideloadedEntry> = Vec::new();
    let mut i: usize = 0;
    assert(orig.take(0) =~= Seq::<SideloadedEntry>::empty());
    assert(orig.skip(0) =~= orig);
    while rest.len() > 0
        invariant
            i <= orig.len(),
            orig.len() <= usize::MAX,
            rest@ == orig.skip(i as int),
            out@ == sort_by_name_spec(orig.take(i as int)),
        decreases rest@.len(),
    {
        let x = rest.remove(0);
        proof {
            assert(orig.skip(i as int).drop_first() =~= orig.skip(i + 1));
            assert(orig.take(i + 1).drop_last() =~= orig.take(i as int));
            assert(orig.take(i + 1).last() == x);
        }
        let ghost t = out@;
        let xl = lower(&chars_of(x.name.as_str()));
        let mut k: usize = 0;
        assert(t.skip(0) =~= t);
        while k < out.len() && lex_le_exec(&lower(&chars_of(out[k].name.as_str())), &xl)
            invariant
                k <= out.len(),
                t == out@,
                xl@ == lower_seq(x.name@),
                name_insert_pos(t, x) == k + name_insert_pos(t.skip(k as int), x),
            decreases out.len() - k,
        {
            assert(t.skip(k as int)[0] == t[k as int]);
            assert(t.skip(k as int).skip(1) =~= t.skip(k + 1));
            k = k + 1;
        }
        if k < out.len() {
            assert(t.skip(k as int)[0] == t[k as int]);
        }
        assert(name_insert_pos(t.skip(k as int), x) == 0);
        out.insert(k, x);
        assert(out@ =~= t.take(k as int).push(x) + t.skip(k as int));
        i = i + 1;
    }
    assert(orig.take(i as int) =~= orig);
    out
}

proof fn lemma_name_insert_pos_splits(t: Seq<SideloadedEntry>, x: SideloadedEntry)
    ensures
        forall|i: int| 0 <= i < name_insert_pos(t, x) ==> name_le(#[trigger] t[i], x),
        name_insert_pos(t, x) < t.len() ==> !name_le(t[name_insert_pos(t, x)], x),
    decreases t.len(),
{
    lemma_name_insert_pos_bounds(t, x);
    if t.len() > 0 && name_le(t[0], x) {
        lemma_name_insert_pos_splits(t.skip(1), x);
        lemma_name_insert_pos_bounds(t.skip(1), x);
        assert forall|i: int| 0 <= i < name_insert_pos(t, x) implies name_le(#[trigger] t[i], x) by {
            if i > 0 {
                assert(t[i] == t.skip(1)[i - 1]);
            }
        }
        if name_insert_pos(t, x) < t.len() {
            let j = name_insert_pos(t.skip(1), x);
            assert(t[name_insert_pos(t, x)] == t.skip(1)[j]);
        }
    }
}

/// The listing is in order of lowercased names, and holds exactly the
/// entries it was given, each as often.
pub proof fn lemma_sorted_by_name(s: Seq<SideloadedEntry>)
    ensures
        forall|i: int, j: int|
            0 <= i < j < sort_by_name_spec(s).len() ==> name_le(
                #[trigger] sort_by_name_spec(s)[i],
                #[trigger] sort_by_name_spec(s)[j],
            ),
        sort_by_name_spec(s).to_multiset() == s.to_multiset(),
    decreases s.len(),
{
    broadcast use vstd::seq_lib::group_to_multiset_ensures;

    if s.len() == 0 {
        assert(sort_by_name_spec(s) == s);
    } else {
        let init = s.drop_last();
        let x = s.last();
        lemma_sorted_by_name(init);
        let t = sort_by_name_spec(init);
        let k = name_insert_pos(t, x);
        lemma_name_insert_pos_bounds(t, x);
        lemma_name_insert_pos_splits(t, x);
        let r = sort_by_name_spec(s);
        assert(r == t.take(k).push(x) + t.skip(k));
        assert forall|j: int| k <= j < t.len() implies name_le(x, #[trigger] t[j]) by {
            if name_le(t[j], x) && j > k {
                lemma_lex_le_trans(lower_seq(t[k].name@), lower_seq(t[j].name@), lower_seq(x.name@));
            }
            lemma_lex_le_total(lower_seq(x.name@), lower_seq(t[j].name@));
        }
        assert forall|i: int, j: int| 0 <= i < j < r.len() implies name_le(#[trigger] r[i], #[trigger] r[j]) by {
            if j < k {
                assert(r[i] == t[i] && r[j] == t[j]);
            } else if j == k {
                assert(r[i] == t[i] && r[j] == x);
            } else if i < k {
                assert(r[i] == t[i] && r[j] == t[j - 1]);
                lemma_lex_le_trans(lower_seq(t[i].name@), lower_seq(x.name@), lower_seq(t[j - 1].name@));
            } else if i == k {
                assert(r[i] == x && r[j] == t[j - 1]);
            } else {
                assert(r[i] == t[i - 1] && r[j] == t[j - 1]);
            }
        }
        assert(r.remove(k) =~= t);
        assert(r.remove(k).to_multiset() =~= r.to_multiset().remove(x));
        assert(r.to_multiset().count(x) > 0);
        assert(r.to_multiset() =~= t.to_multiset().insert(x));
        assert(init.push(x) =~= s);
    }
}

} // verus!
