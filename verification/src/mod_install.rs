//! Installed-mod bookkeeping: where mods live, which are installed, what each
//! install request must do, and in which order dependencies are installed.
use vstd::prelude::*;

use crate::mod_folder::{
    install_folder_name, install_folder_spec, is_legacy_install_folder_name, is_legacy_spec,
    parse_folder_spec, parse_install_folder_name,
};
use crate::modio_api::{strings_view, ModObject, Modfile};
use crate::number::dec_seq;
use crate::zip_extract::sanitized_filename_spec;
use crate::modio_client::{tag_names, tag_names_view};
use crate::paths::{join_path, join_path_spec};
use crate::text::{append_all, chars_eq, chars_of, own, string_of};
use crate::wine_prefix::{lex_le, lex_le_exec};

verus! {

pub const BEPINEX_PLUGINS: &'static str = "BepInEx/plugins";

pub const MODKIST_PROFILES_ROOT: &'static str = ".modkist/profiles";

pub const MODS_DIR: &'static str = "Mods";

pub const BLUEPRINTS_DIR: &'static str = "Blueprints";

pub const PLUGIN_TAG: &'static str = "Plugin";

pub const BLUEPRINT_TAG: &'static str = "Blueprint";

#[derive(PartialEq, Eq, Structural, Clone, Copy, Debug)]
pub enum InstalledModKind {
    Plugin,
    Blueprint,
}

pub open spec fn kind_dir_spec(kind: InstalledModKind) -> Seq<char> {
    match kind {
        InstalledModKind::Plugin => MODS_DIR@,
        InstalledModKind::Blueprint => BLUEPRINTS_DIR@,
    }
}

impl InstalledModKind {
    /// Plugins live in `Mods`, blueprints in `Blueprints`.
    pub fn directory_name(self) -> (r: &'static str)
        ensures
            r@ == kind_dir_spec(self),
    {
        match self {
            InstalledModKind::Plugin => MODS_DIR,
            InstalledModKind::Blueprint => BLUEPRINTS_DIR,
        }
    }
}

/// A managed mod found on disk: its ids (from the folder name), kind and folder.
pub struct InstalledModRecord {
    pub mod_id: u64,
    pub file_id: u64,
    pub kind: InstalledModKind,
    pub folder_name: String,
}

/// An installed mod that depends on the one the user wants to remove.
pub struct UninstallBlocker {
    pub mod_id: u64,
    pub name: String,
}

/// What the UI shows about one mod's installation.
pub struct ModInstallState {
    pub status: String,
    pub installed_file_id: Option<u64>,
    pub latest_file_id: Option<u64>,
    pub kind: Option<InstalledModKind>,
    pub can_uninstall: bool,
    pub uninstall_blocked_by: Vec<UninstallBlocker>,
}

/// Whether a mod is installed, and whether its installed file is the latest.
pub enum InstallStatus {
    NotInstalled,
    UpToDate { file_id: u64 },
    UpdateAvailable { installed_file_id: u64, latest_file_id: u64 },
}

pub open spec fn status_text(status: InstallStatus) -> Seq<char> {
    match status {
        InstallStatus::NotInstalled => "notInstalled"@,
        InstallStatus::UpToDate { .. } => "upToDate"@,
        InstallStatus::UpdateAvailable { .. } => "updateAvailable"@,
    }
}

impl InstallStatus {
    /// The state sent to the UI: the status word, the installed and latest
    /// file ids, the kind, and whether uninstalling is allowed (installed and
    /// nothing depends on it).
    pub fn into_response(self, kind: Option<InstalledModKind>, blockers: Vec<UninstallBlocker>) -> (r:
        ModInstallState)
        ensures
            r.status@ == status_text(self),
            r.kind == kind,
            r.uninstall_blocked_by == blockers,
            r.can_uninstall == (!(self is NotInstalled) && blockers@.len() == 0),
            r.installed_file_id == (match self {
                InstallStatus::NotInstalled => None,
                InstallStatus::UpToDate { file_id } => Some(file_id),
                InstallStatus::UpdateAvailable { installed_file_id, .. } => Some(installed_file_id),
            }),
            r.latest_file_id == (match self {
                InstallStatus::NotInstalled => None,
                InstallStatus::UpToDate { file_id } => Some(file_id),
                InstallStatus::UpdateAvailable { latest_file_id, .. } => Some(latest_file_id),
            }),
    {
        let is_installed = match self {
            InstallStatus::NotInstalled => false,
            _ => true,
        };
        let can_uninstall = is_installed && blockers.len() == 0;
        match self {
            InstallStatus::NotInstalled => ModInstallState {
                status: own("notInstalled"),
                installed_file_id: None,
                latest_file_id: None,
                kind,
                can_uninstall: false,
                uninstall_blocked_by: blockers,
            },
            InstallStatus::UpToDate { file_id } => ModInstallState {
                status: own("upToDate"),
                installed_file_id: Some(file_id),
                latest_file_id: Some(file_id),
                kind,
                can_uninstall,
                uninstall_blocked_by: blockers,
            },
            InstallStatus::UpdateAvailable { installed_file_id, latest_file_id } => ModInstallState {
                status: own("updateAvailable"),
                installed_file_id: Some(installed_file_id),
                latest_file_id: Some(latest_file_id),
                kind,
                can_uninstall,
                uninstall_blocked_by: blockers,
            },
        }
    }
}

/// An installed mod with its mod.io metadata, as listed in the library view.
pub struct InstalledModEntry {
    pub mod_id: u64,
    pub file_id: u64,
    pub kind: InstalledModKind,
    pub folder_name: String,
    pub name: String,
    pub summary: String,
    pub logo_url: String,
    pub tags: Vec<String>,
    pub update_available: bool,
    pub latest_file_id: Option<u64>,
    pub can_uninstall: bool,
    pub uninstall_blocked_by: Vec<UninstallBlocker>,
}

/// The mods an install request installed and those it left alone.
pub struct InstallModResult {
    pub installed: Vec<u64>,
    pub skipped: Vec<u64>,
}

// ---------------------------------------------------------------------------
// Locations
// ---------------------------------------------------------------------------

pub open spec fn plugins_dir_spec(game_dir: Seq<char>) -> Seq<char> {
    join_path_spec(game_dir, BEPINEX_PLUGINS@)
}

pub open spec fn kind_root_spec(game_dir: Seq<char>, kind: InstalledModKind) -> Seq<char> {
    join_path_spec(plugins_dir_spec(game_dir), kind_dir_spec(kind))
}

/// `<game>/BepInEx/plugins`.
pub fn bepinex_plugins_dir(game_dir: &str) -> (r: String)
    ensures
        r@ == plugins_dir_spec(game_dir@),
{
    join_path(game_dir, BEPINEX_PLUGINS)
}

/// `<game>/BepInEx/plugins/Mods` or `.../Blueprints`.
pub fn kind_root_dir(game_dir: &str, kind: InstalledModKind) -> (r: String)
    ensures
        r@ == kind_root_spec(game_dir@, kind),
{
    let plugins = bepinex_plugins_dir(game_dir);
    join_path(plugins.as_str(), kind.directory_name())
}

/// `<game>/BepInEx/plugins/.modkist/profiles`.
pub fn profiles_root_dir(game_dir: &str) -> (r: String)
    ensures
        r@ == join_path_spec(plugins_dir_spec(game_dir@), MODKIST_PROFILES_ROOT@),
{
    let plugins = bepinex_plugins_dir(game_dir);
    join_path(plugins.as_str(), MODKIST_PROFILES_ROOT)
}

/// The directories a managed install may live in: the live `Mods` and
/// `Blueprints` folders, then both folders of every saved profile (given by
/// its directory).
#[verifier::spinoff_prover]
pub fn managed_install_kind_dirs(game_dir: &str, profile_dirs: &Vec<String>) -> (r: Vec<String>)
    ensures
        r@.len() == 2 + 2 * profile_dirs@.len(),
        r@[0]@ == kind_root_spec(game_dir@, InstalledModKind::Plugin),
        r@[1]@ == kind_root_spec(game_dir@, InstalledModKind::Blueprint),
        forall|i: int|
            0 <= i < profile_dirs@.len() ==> {
                &&& (#[trigger] r@[2 + 2 * i])@ == join_path_spec(profile_dirs@[i]@, MODS_DIR@)
                &&& r@[3 + 2 * i]@ == join_path_spec(profile_dirs@[i]@, BLUEPRINTS_DIR@)
            },
{
    let mut dirs: Vec<String> = Vec::new();
    dirs.push(kind_root_dir(game_dir, InstalledModKind::Plugin));
    dirs.push(kind_root_dir(game_dir, InstalledModKind::Blueprint));
    let mut i: usize = 0;
    while i < profile_dirs.len()
        invariant
            i <= profile_dirs.len(),
            dirs@.len() == 2 + 2 * i,
            dirs@[0]@ == kind_root_spec(game_dir@, InstalledModKind::Plugin),
            dirs@[1]@ == kind_root_spec(game_dir@, InstalledModKind::Blueprint),
            forall|j: int|
                0 <= j < i ==> {
                    &&& (#[trigger] dirs@[2 + 2 * j])@ == join_path_spec(profile_dirs@[j]@, MODS_DIR@)
                    &&& dirs@[3 + 2 * j]@ == join_path_spec(profile_dirs@[j]@, BLUEPRINTS_DIR@)
                },
        decreases profile_dirs.len() - i,
    {
        let ghost before = dirs@;
        dirs.push(join_path(profile_dirs[i].as_str(), MODS_DIR));
        dirs.push(join_path(profile_dirs[i].as_str(), BLUEPRINTS_DIR));
        proof {
            assert forall|j: int| 0 <= j < i + 1 implies {
                &&& (#[trigger] dirs@[2 + 2 * j])@ == join_path_spec(profile_dirs@[j]@, MODS_DIR@)
                &&& dirs@[3 + 2 * j]@ == join_path_spec(profile_dirs@[j]@, BLUEPRINTS_DIR@)
            } by {
                if j < i {
                    assert(dirs@[2 + 2 * j] == before[2 + 2 * j]);
                    assert(dirs@[3 + 2 * j] == before[3 + 2 * j]);
                } else {
                    assert(2 + 2 * j == dirs@.len() - 2);
                }
            }
        }
        i = i + 1;
    }
    dirs
}

// ---------------------------------------------------------------------------
// Kinds and prerequisites
// ---------------------------------------------------------------------------

pub open spec fn has_tag(tags: Seq<Seq<char>>, tag: Seq<char>) -> bool {
    tags.contains(tag)
}

fn has_tag_exec(tags: &Vec<String>, tag: &str) -> (r: bool)
    ensures
        r == has_tag(strings_view(tags@), tag@),
{
    let t = chars_of(tag);
    let mut i: usize = 0;
    while i < tags.len()
        invariant
            i <= tags.len(),
            t@ == tag@,
            forall|j: int| 0 <= j < i ==> tags@[j]@ != tag@,
        decreases tags.len() - i,
    {
        if chars_eq(&chars_of(tags[i].as_str()), &t) {
            assert(strings_view(tags@)[i as int] == tag@);
            return true;
        }
        i = i + 1;
    }
    assert(!strings_view(tags@).contains(tag@)) by {
        if strings_view(tags@).contains(tag@) {
            let w = choose|w: int| 0 <= w < strings_view(tags@).len() && #[trigger] strings_view(
                tags@,
            )[w] == tag@;
            assert(tags@[w]@ == tag@);
        }
    }
    false
}

/// A mod tagged `Plugin` installs as a plugin (even when it is also tagged
/// `Blueprint`), one tagged only `Blueprint` as a blueprint; others cannot be
/// installed.
pub fn mod_kind_from_tags(tags: &Vec<String>) -> (r: Result<InstalledModKind, String>)
    ensures
        has_tag(strings_view(tags@), PLUGIN_TAG@) ==> r == Ok::<InstalledModKind, String>(
            InstalledModKind::Plugin,
        ),
        !has_tag(strings_view(tags@), PLUGIN_TAG@) && has_tag(strings_view(tags@), BLUEPRINT_TAG@)
            ==> r == Ok::<InstalledModKind, String>(InstalledModKind::Blueprint),
        !has_tag(strings_view(tags@), PLUGIN_TAG@) && !has_tag(strings_view(tags@), BLUEPRINT_TAG@)
            ==> (r matches Err(m) && m@ == "Mod is not tagged Plugin or Blueprint."@),
{
    if has_tag_exec(tags, PLUGIN_TAG) {
        return Ok(InstalledModKind::Plugin);
    }
    if has_tag_exec(tags, BLUEPRINT_TAG) {
        return Ok(InstalledModKind::Blueprint);
    }
    Err(own("Mod is not tagged Plugin or Blueprint."))
}

/// The kind `mod_kind_from_tags` gives for these tag names.
pub open spec fn mod_kind_spec(tags: Seq<Seq<char>>) -> Result<InstalledModKind, Seq<char>> {
    if has_tag(tags, PLUGIN_TAG@) {
        Ok(InstalledModKind::Plugin)
    } else if has_tag(tags, BLUEPRINT_TAG@) {
        Ok(InstalledModKind::Blueprint)
    } else {
        Err("Mod is not tagged Plugin or Blueprint."@)
    }
}

/// What installing one mod downloads and where it puts it.
pub struct InstallPlan {
    pub file_id: u64,
    pub download_url: String,
    pub expected_size: u64,
    pub kind: InstalledModKind,
    /// `<kind folder>/<install folder name>`.
    pub target_dir: String,
    /// `<mod id>_<file id>_<file name>`, the name the download is saved as.
    pub download_name: String,
}

/// The file to install: the one fetched for a requested file id, else the
/// mod's current file.
pub open spec fn chosen_file(mod_: ModObject, requested: Option<Modfile>) -> Option<Modfile> {
    match requested {
        Some(f) => Some(f),
        None => mod_.modfile,
    }
}

/// Plans installing `mod_` into `game_dir`. `requested` is the file fetched
/// when a specific file id was asked for (`None` otherwise). Without a file
/// the mod cannot be installed; the kind comes from its tags; the target is
/// its install folder under the kind's folder.
pub fn install_plan(game_dir: &str, mod_id: u64, mod_: &ModObject, requested: Option<Modfile>) -> (r: Result<
    InstallPlan,
    String,
>)
    ensures
        chosen_file(*mod_, requested) is None ==> (r matches Err(m) && m@ == "Mod "@ + dec_seq(mod_id as nat)
            + " has no downloadable file."@),
        chosen_file(*mod_, requested) matches Some(f) ==> match mod_kind_spec(tag_names_view(mod_.tags@)) {
            Err(e) => r matches Err(m) && m@ == e,
            Ok(kind) => r matches Ok(p) && p.file_id == f.id && p.download_url@ == f.download.binary_url@
                && p.expected_size == f.filesize && p.kind == kind && p.target_dir@ == join_path_spec(
                kind_root_spec(game_dir@, kind),
                install_folder_spec(mod_id, f.id, mod_.name@),
            ) && p.download_name@ == dec_seq(mod_id as nat) + "_"@ + dec_seq(f.id as nat) + "_"@
                + sanitized_filename_spec(f.filename@),
        },
{
    let (file_id, filename, expected_size, url) = match &requested {
        Some(f) => (f.id, own(f.filename.as_str()), f.filesize, own(f.download.binary_url.as_str())),
        None => match &mod_.modfile {
            Some(f) => (f.id, own(f.filename.as_str()), f.filesize, own(f.download.binary_url.as_str())),
            None => {
                let mut m = chars_of("Mod ");
                append_all(&mut m, &crate::number::u64_to_dec(mod_id));
                append_all(&mut m, &chars_of(" has no downloadable file."));
                return Err(string_of(&m));
            },
        },
    };
    let tags = tag_names(&mod_.tags);
    let kind = match mod_kind_from_tags(&tags) {
        Ok(k) => k,
        Err(e) => return Err(e),
    };
    let root = kind_root_dir(game_dir, kind);
    let folder = install_folder_name(mod_id, file_id, mod_.name.as_str());
    let target_dir = join_path(root.as_str(), folder.as_str());
    let mut name = crate::number::u64_to_dec(mod_id);
    append_all(&mut name, &chars_of("_"));
    append_all(&mut name, &crate::number::u64_to_dec(file_id));
    append_all(&mut name, &chars_of("_"));
    append_all(&mut name, &chars_of(crate::zip_extract::sanitize_filename(filename.as_str()).as_str()));
    Ok(InstallPlan { file_id, download_url: url, expected_size, kind, target_dir, download_name: string_of(&name) })
}

/// Installing needs BepInEx in the game directory.
pub fn ensure_install_prerequisites(has_bepinex: bool) -> (r: Result<(), String>)
    ensures
        has_bepinex ==> r is Ok,
        !has_bepinex ==> (r matches Err(m) && m@ == "BepInEx is not installed in your game directory."@),
{
    if !has_bepinex {
        return Err(own("BepInEx is not installed in your game directory."));
    }
    Ok(())
}

// ---------------------------------------------------------------------------
// Installed records
// ---------------------------------------------------------------------------

/// A directory entry seen while scanning a kind folder: its name and whether
/// it is a directory.
pub struct DirEntryInfo {
    pub name: String,
    pub is_dir: bool,
}

/// `r` is the record for entry `e` of a `kind` folder.
pub open spec fn is_record_for(r: InstalledModRecord, e: DirEntryInfo, kind: InstalledModKind) -> bool {
    &&& parse_folder_spec(e.name@) == Some((r.mod_id, r.file_id))
    &&& r.kind == kind
    &&& r.folder_name@ == e.name@
}

/// The entry is a managed install folder.
pub open spec fn is_install_entry(e: DirEntryInfo) -> bool {
    e.is_dir && parse_folder_spec(e.name@) is Some
}

/// The records of a kind folder: one per sub-directory whose name parses as
/// an install folder, in listing order; files and other folders are left out.
pub fn scan_kind_entries(entries: &Vec<DirEntryInfo>, kind: InstalledModKind) -> (r: Vec<
    InstalledModRecord,
>)
    ensures
        r@.len() == entries@.filter(|e: DirEntryInfo| is_install_entry(e)).len(),
        forall|i: int|
            0 <= i < r@.len() ==> is_record_for(
                #[trigger] r@[i],
                entries@.filter(|e: DirEntryInfo| is_install_entry(e))[i],
                kind,
            ),
{
    let ghost pred = |e: DirEntryInfo| is_install_entry(e);
    let mut records: Vec<InstalledModRecord> = Vec::new();
    let mut i: usize = 0;
    proof {
        reveal(Seq::filter);
    }
    assert(entries@.take(0) =~= Seq::<DirEntryInfo>::empty());
    while i < entries.len()
        invariant
            i <= entries.len(),
            pred == (|e: DirEntryInfo| is_install_entry(e)),
            records@.len() == entries@.take(i as int).filter(pred).len(),
            forall|k: int|
                0 <= k < records@.len() ==> is_record_for(
                    #[trigger] records@[k],
                    entries@.take(i as int).filter(pred)[k],
                    kind,
                ),
        decreases entries.len() - i,
    {
        let e = &entries[i];
        proof {
            assert(entries@.take(i + 1) =~= entries@.take(i as int).push(entries@[i as int]));
            entries@.take(i as int).lemma_filter_push(entries@[i as int], pred);
        }
        if e.is_dir {
            match parse_install_folder_name(e.name.as_str()) {
                Some((mod_id, file_id)) => {
                    records.push(
                        InstalledModRecord {
                            mod_id,
                            file_id,
                            kind,
                            folder_name: own(e.name.as_str()),
                        },
                    );
                },
                None => {},
            }
        }
        i = i + 1;
    }
    assert(entries@.take(i as int) =~= entries@);
    records
}

/// The first record of `mod_id`, if installed.
pub fn find_installed_record(records: &Vec<InstalledModRecord>, mod_id: u64) -> (r: Option<usize>)
    ensures
        match r {
            Some(i) => i < records@.len() && records@[i as int].mod_id == mod_id && forall|j: int|
                0 <= j < i ==> records@[j].mod_id != mod_id,
            None => forall|j: int| 0 <= j < records@.len() ==> records@[j].mod_id != mod_id,
        },
{
    let mut i: usize = 0;
    while i < records.len()
        invariant
            i <= records.len(),
            forall|j: int| 0 <= j < i ==> records@[j].mod_id != mod_id,
        decreases records.len() - i,
    {
        if records[i].mod_id == mod_id {
            return Some(i);
        }
        i = i + 1;
    }
    None
}

/// The ids of the installed records, in order.
pub fn installed_ids_of(records: &Vec<InstalledModRecord>) -> (r: Vec<u64>)
    ensures
        r@ == records@.map_values(|x: InstalledModRecord| x.mod_id),
{
    let mut r: Vec<u64> = Vec::new();
    let mut i: usize = 0;
    while i < records.len()
        invariant
            i <= records.len(),
            r@ == records@.take(i as int).map_values(|x: InstalledModRecord| x.mod_id),
        decreases records.len() - i,
    {
        r.push(records[i].mod_id);
        i = i + 1;
        assert(r@ =~= records@.take(i as int).map_values(|x: InstalledModRecord| x.mod_id));
    }
    assert(records@.take(i as int) =~= records@);
    r
}

/// The install status of a mod from its first installed record and the latest
/// file mod.io offers (unknown when it could not be fetched).
pub open spec fn install_status_spec(installed_file: Option<u64>, latest: Option<u64>) -> InstallStatus {
    match installed_file {
        None => InstallStatus::NotInstalled,
        Some(f) => match latest {
            Some(l) => if f == l {
                InstallStatus::UpToDate { file_id: l }
            } else {
                InstallStatus::UpdateAvailable { installed_file_id: f, latest_file_id: l }
            },
            None => InstallStatus::UpToDate { file_id: f },
        },
    }
}

/// A mod's status from its installed file and mod.io's latest file: not
/// installed without a file; an update is available exactly when the latest
/// file is known and is another file, and then both files are reported; it
/// is up to date otherwise, with the file it has.
pub proof fn lemma_install_status_law(installed_file: Option<u64>, latest: Option<u64>)
    ensures
        installed_file is None <==> install_status_spec(installed_file, latest) is NotInstalled,
        installed_file matches Some(f) ==> (latest matches Some(l) ==> (f != l ==> install_status_spec(
            installed_file,
            latest,
        ) == (InstallStatus::UpdateAvailable { installed_file_id: f, latest_file_id: l }))),
        install_status_spec(installed_file, latest) matches InstallStatus::UpToDate { file_id } ==> (
        installed_file == Some(file_id) && (latest is None || latest == Some(file_id))),
        install_status_spec(installed_file, latest) matches InstallStatus::UpdateAvailable {
            installed_file_id,
            latest_file_id,
        } ==> (installed_file == Some(installed_file_id) && latest == Some(latest_file_id) && installed_file_id
            != latest_file_id),
{
}

pub fn install_status_for(installed_file: Option<u64>, latest: Option<u64>) -> (r: InstallStatus)
    ensures
        r == install_status_spec(installed_file, latest),
{
    match installed_file {
        None => InstallStatus::NotInstalled,
        Some(f) => match latest {
            Some(l) => if f == l {
                InstallStatus::UpToDate { file_id: l }
            } else {
                InstallStatus::UpdateAvailable { installed_file_id: f, latest_file_id: l }
            },
            None => InstallStatus::UpToDate { file_id: f },
        },
    }
}


// ---------------------------------------------------------------------------
// Install order
// ---------------------------------------------------------------------------

/// The mods reachable from an install request, each with the dependency ids
/// mod.io lists for it. `nodes[i]` has the dependencies `deps[i]`; a mod
/// appears once.
pub struct DependencyGraph {
    pub nodes: Vec<u64>,
    pub deps: Vec<Vec<u64>>,
}

impl DependencyGraph {
    pub open spec fn wf(&self) -> bool {
        &&& self.nodes@.len() == self.deps@.len()
        &&& self.nodes@.no_duplicates()
    }

    /// Node `i` lists node `j` among its dependencies.
    pub open spec fn depends_idx(&self, i: int, j: int) -> bool {
        &&& 0 <= i < self.nodes@.len()
        &&& 0 <= j < self.nodes@.len()
        &&& self.deps@[i]@.contains(self.nodes@[j])
    }

    /// Mod `x` of the graph depends on mod `y`, also of the graph.
    pub open spec fn depends(&self, x: u64, y: u64) -> bool {
        &&& self.nodes@.contains(y)
        &&& exists|i: int|
            0 <= i < self.nodes@.len() && #[trigger] self.nodes@[i] == x && self.deps@[i]@.contains(y)
    }

    /// `order` lists every mod of the graph once, each after all of its
    /// dependencies within the graph.
    pub open spec fn is_dependency_first_order(&self, order: Seq<u64>) -> bool {
        &&& order.len() == self.nodes@.len()
        &&& order.no_duplicates()
        &&& forall|x: u64| order.contains(x) <==> self.nodes@.contains(x)
        &&& forall|p: int, q: int|
            0 <= p < order.len() && 0 <= q < order.len() && #[trigger] self.depends(order[p], order[q])
                ==> q < p
    }

    /// Some non-empty set of the graph's mods has every member depending on
    /// another member: the dependencies go round in a circle.
    pub open spec fn has_dependency_cycle(&self) -> bool {
        exists|s: Set<u64>| #[trigger] self.is_cycle_set(s)
    }

    /// `s` is a non-empty set of the graph's mods in which every member
    /// depends on another member.
    pub open spec fn is_cycle_set(&self, s: Set<u64>) -> bool {
        &&& forall|x: u64| #[trigger] s.contains(x) ==> self.nodes@.contains(x)
        &&& exists|x: u64| s.contains(x)
        &&& forall|x: u64| #[trigger] s.contains(x) ==> self.depends_within(s, x)
    }

    /// `x` depends on some member of `s`.
    #[verifier::opaque]
    pub open spec fn depends_within(&self, s: Set<u64>, x: u64) -> bool {
        exists|y: u64| s.contains(y) && self.depends(x, y)
    }
}

/// Number of `false` entries.
pub open spec fn count_false(s: Seq<bool>) -> nat
    decreases s.len(),
{
    if s.len() == 0 {
        0
    } else {
        count_false(s.drop_last()) + if s.last() {
            0nat
        } else {
            1nat
        }
    }
}

proof fn lemma_count_false_update(s: Seq<bool>, i: int)
    requires
        0 <= i < s.len(),
        !s[i],
    ensures
        count_false(s.update(i, true)) + 1 == count_false(s),
    decreases s.len(),
{
    let t = s.update(i, true);
    if i == s.len() - 1 {
        assert(t.drop_last() =~= s.drop_last());
    } else {
        assert(t.drop_last() =~= s.drop_last().update(i, true));
        lemma_count_false_update(s.drop_last(), i);
    }
}

proof fn lemma_count_false_zero(s: Seq<bool>, i: int)
    requires
        0 <= i < s.len(),
        count_false(s) == 0,
    ensures
        s[i],
    decreases s.len(),
{
    if i < s.len() - 1 {
        assert(s.drop_last()[i] == s[i]);
        lemma_count_false_zero(s.drop_last(), i);
    }
}

proof fn lemma_count_false_all(n: nat)
    ensures
        count_false(Seq::new(n, |i: int| false)) == n,
    decreases n,
{
    if n > 0 {
        assert(Seq::new(n, |i: int| false).drop_last() =~= Seq::new((n - 1) as nat, |i: int| false));
        lemma_count_false_all((n - 1) as nat);
    }
}

proof fn lemma_count_false_positive(s: Seq<bool>)
    requires
        count_false(s) > 0,
    ensures
        exists|i: int| 0 <= i < s.len() && !s[i],
    decreases s.len(),
{
    if s.last() {
        lemma_count_false_positive(s.drop_last());
        let i = choose|i: int| 0 <= i < s.drop_last().len() && !s.drop_last()[i];
        assert(!s[i]);
    } else {
        assert(!s[s.len() - 1]);
    }
}

/// Every dependency of node `i` within the graph is already placed.
pub open spec fn all_deps_placed(g: &DependencyGraph, placed: Seq<bool>, i: int) -> bool {
    forall|j: int| #[trigger] g.depends_idx(i, j) ==> placed[j]
}

/// Bookkeeping of the placement rounds: `order` lists the placed nodes
/// (`idx[p]` is the node at position `p`, `pos[i]` the position of node `i`),
/// and every placed node comes after its dependencies.
#[verifier::opaque]
pub open spec fn placement_ok(
    g: &DependencyGraph,
    placed: Seq<bool>,
    pos: Seq<int>,
    idx: Seq<int>,
    order: Seq<u64>,
) -> bool {
    let n = g.nodes@.len();
    &&& placed.len() == n
    &&& pos.len() == n
    &&& idx.len() == order.len()
    &&& order.len() + count_false(placed) == n
    &&& forall|p: int|
        0 <= p < order.len() ==> {
            &&& 0 <= #[trigger] idx[p] < n
            &&& placed[idx[p]]
            &&& g.nodes@[idx[p]] == order[p]
            &&& pos[idx[p]] == p
        }
    &&& forall|i: int| 0 <= i < n && #[trigger] placed[i] ==> 0 <= pos[i] < order.len() && idx[pos[i]] == i
    &&& forall|i: int, j: int| #[trigger] g.depends_idx(i, j) && placed[i] ==> placed[j] && pos[j] < pos[i]
}

proof fn lemma_placement_start(g: &DependencyGraph)
    requires
        g.wf(),
    ensures
        placement_ok(
            g,
            Seq::new(g.nodes@.len(), |i: int| false),
            Seq::new(g.nodes@.len(), |i: int| 0int),
            Seq::empty(),
            Seq::empty(),
        ),
{
    reveal(placement_ok);
    lemma_count_false_all(g.nodes@.len());
}

proof fn lemma_placement_step(
    g: &DependencyGraph,
    placed: Seq<bool>,
    pos: Seq<int>,
    idx: Seq<int>,
    order: Seq<u64>,
    i: int,
)
    requires
        g.wf(),
        placement_ok(g, placed, pos, idx, order),
        0 <= i < g.nodes@.len(),
        !placed[i],
        all_deps_placed(g, placed, i),
    ensures
        placement_ok(
            g,
            placed.update(i, true),
            pos.update(i, order.len() as int),
            idx.push(i),
            order.push(g.nodes@[i]),
        ),
        count_false(placed.update(i, true)) < count_false(placed),
{
    reveal(placement_ok);
    lemma_count_false_update(placed, i);
    let placed2 = placed.update(i, true);
    let pos2 = pos.update(i, order.len() as int);
    let idx2 = idx.push(i);
    let order2 = order.push(g.nodes@[i]);
    assert forall|p: int| 0 <= p < order2.len() implies {
        &&& 0 <= #[trigger] idx2[p] < g.nodes@.len()
        &&& placed2[idx2[p]]
        &&& g.nodes@[idx2[p]] == order2[p]
        &&& pos2[idx2[p]] == p
    } by {
        if p < order.len() {
            assert(idx2[p] == idx[p]);
            assert(placed[idx[p]]);
            assert(idx[p] != i);
        }
    }
    assert forall|k: int| 0 <= k < g.nodes@.len() && #[trigger] placed2[k] implies 0 <= pos2[k]
        < order2.len() && idx2[pos2[k]] == k by {
        if k != i {
            assert(placed[k]);
        }
    }
    assert forall|a: int, b: int| #[trigger] g.depends_idx(a, b) && placed2[a] implies placed2[b]
        && pos2[b] < pos2[a] by {
        if a == i {
            assert(placed[b]);
            assert(b != i);
        } else {
            assert(placed[a]);
            assert(placed[b]);
            assert(b != i);
        }
    }
}

proof fn lemma_placement_complete(
    g: &DependencyGraph,
    placed: Seq<bool>,
    pos: Seq<int>,
    idx: Seq<int>,
    order: Seq<u64>,
)
    requires
        g.wf(),
        placement_ok(g, placed, pos, idx, order),
        order.len() == g.nodes@.len(),
    ensures
        g.is_dependency_first_order(order),
{
    reveal(placement_ok);
    let n = g.nodes@.len();
    assert forall|i: int| 0 <= i < n implies placed[i] by {
        lemma_count_false_zero(placed, i);
    }
    assert forall|p: int, q: int| 0 <= p < order.len() && 0 <= q < order.len() && p != q implies order[p]
        != order[q] by {
        assert(idx[p] != idx[q]) by {
            if idx[p] == idx[q] {
                assert(pos[idx[p]] == p);
            }
        }
        assert(g.nodes@[idx[p]] != g.nodes@[idx[q]]);
    }
    assert forall|x: u64| order.contains(x) <==> g.nodes@.contains(x) by {
        if order.contains(x) {
            let p = choose|p: int| 0 <= p < order.len() && order[p] == x;
            assert(g.nodes@[idx[p]] == x);
        }
        if g.nodes@.contains(x) {
            let i = choose|i: int| 0 <= i < n && g.nodes@[i] == x;
            assert(placed[i]);
            assert(order[pos[i]] == x);
        }
    }
    assert forall|p: int, q: int|
        0 <= p < order.len() && 0 <= q < order.len() && #[trigger] g.depends(order[p], order[q])
        implies q < p by {
        let i = choose|i: int|
            0 <= i < g.nodes@.len() && #[trigger] g.nodes@[i] == order[p] && g.deps@[i]@.contains(
                order[q],
            );
        assert(g.nodes@[idx[p]] == g.nodes@[i]);
        assert(idx[p] == i);
        assert(g.depends_idx(i, idx[q]));
    }
}

proof fn lemma_placement_stuck(
    g: &DependencyGraph,
    placed: Seq<bool>,
    pos: Seq<int>,
    idx: Seq<int>,
    order: Seq<u64>,
)
    requires
        g.wf(),
        placement_ok(g, placed, pos, idx, order),
        order.len() != g.nodes@.len(),
        forall|i: int| 0 <= i < g.nodes@.len() ==> placed[i] || !all_deps_placed(g, placed, i),
    ensures
        g.has_dependency_cycle(),
{
    reveal(placement_ok);
    let n = g.nodes@.len();
    lemma_count_false_positive(placed);
    let stuck = Set::new(|x: u64| exists|i: int| 0 <= i < n && g.nodes@[i] == x && !placed[i]);
    let i0 = choose|i: int| 0 <= i < placed.len() && !placed[i];
    assert(stuck.contains(g.nodes@[i0]));
    assert forall|x: u64| #[trigger] stuck.contains(x) implies g.depends_within(stuck, x) by {
        reveal(DependencyGraph::depends_within);
        let i = choose|i: int| 0 <= i < n && g.nodes@[i] == x && !placed[i];
        assert(!all_deps_placed(g, placed, i));
        let j = choose|j: int| #[trigger] g.depends_idx(i, j) && !placed[j];
        assert(stuck.contains(g.nodes@[j]));
        assert(g.depends(x, g.nodes@[j]));
    }
    assert forall|x: u64| #[trigger] stuck.contains(x) implies g.nodes@.contains(x) by {
        let i = choose|i: int| 0 <= i < n && g.nodes@[i] == x && !placed[i];
    }
    assert(g.is_cycle_set(stuck));
}

fn position_in(nodes: &Vec<u64>, x: u64) -> (r: Option<usize>)
    ensures
        r matches Some(j) ==> j < nodes@.len() && nodes@[j as int] == x,
        r is None ==> !nodes@.contains(x),
{
    let mut j: usize = 0;
    while j < nodes.len()
        invariant
            j <= nodes.len(),
            forall|k: int| 0 <= k < j ==> nodes@[k] != x,
        decreases nodes.len() - j,
    {
        if nodes[j] == x {
            return Some(j);
        }
        j = j + 1;
    }
    None
}

fn deps_placed(g: &DependencyGraph, placed: &Vec<bool>, i: usize) -> (r: bool)
    requires
        g.wf(),
        placed@.len() == g.nodes@.len(),
        i < g.nodes@.len(),
    ensures
        r == all_deps_placed(g, placed@, i as int),
{
    let deps = &g.deps[i];
    let mut k: usize = 0;
    while k < deps.len()
        invariant
            g.wf(),
            placed@.len() == g.nodes@.len(),
            i < g.nodes@.len(),
            *deps == g.deps@[i as int],
            k <= deps.len(),
            forall|m: int, j: int|
                0 <= m < k && 0 <= j < g.nodes@.len() && g.nodes@[j] == #[trigger] deps@[m]
                    ==> #[trigger] placed@[j],
        decreases deps.len() - k,
    {
        match position_in(&g.nodes, deps[k]) {
            Some(j) => {
                if !placed[j] {
                    assert(deps@[k as int] == g.nodes@[j as int]);
                    assert(deps@.contains(g.nodes@[j as int]));
                    assert(g.depends_idx(i as int, j as int));
                    return false;
                }
                assert forall|j2: int|
                    0 <= j2 < g.nodes@.len() && g.nodes@[j2] == deps@[k as int] implies placed@[j2] by {
                    assert(g.nodes@[j2] == g.nodes@[j as int]);
                }
            },
            None => {
                assert forall|j2: int|
                    0 <= j2 < g.nodes@.len() && g.nodes@[j2] == deps@[k as int] implies placed@[j2] by {
                    assert(g.nodes@.contains(deps@[k as int]));
                }
            },
        }
        k = k + 1;
    }
    assert forall|j: int| #[trigger] g.depends_idx(i as int, j) implies placed@[j] by {
        let m = choose|m: int| 0 <= m < deps@.len() && deps@[m] == g.nodes@[j];
    }
    true
}

/// Installs dependencies first. Mods whose dependencies are all placed are
/// placed in rounds until none is left, or until the remaining ones all wait
/// on each other, which is a circular dependency.
pub fn install_order(g: &DependencyGraph) -> (r: Result<Vec<u64>, String>)
    requires
        g.wf(),
    ensures
        r matches Ok(order) ==> g.is_dependency_first_order(order@),
        r is Err <==> g.has_dependency_cycle(),
        r matches Err(m) ==> m@ == "Circular dependency detected."@,
{
    let n = g.nodes.len();
    let mut placed: Vec<bool> = Vec::new();
    let mut k: usize = 0;
    while k < n
        invariant
            k <= n,
            placed@ == Seq::new(k as nat, |i: int| false),
        decreases n - k,
    {
        placed.push(false);
        k = k + 1;
        assert(placed@ =~= Seq::new(k as nat, |i: int| false));
    }
    let mut order: Vec<u64> = Vec::new();
    let ghost mut pos: Seq<int> = Seq::new(n as nat, |i: int| 0int);
    let ghost mut idx: Seq<int> = Seq::empty();
    proof {
        lemma_placement_start(g);
        assert(order@ =~= Seq::<u64>::empty());
    }
    let mut progress = true;
    while progress
        invariant
            g.wf(),
            n == g.nodes@.len(),
            placed@.len() == n,
            placement_ok(g, placed@, pos, idx, order@),
            !progress ==> forall|i: int| 0 <= i < n ==> placed@[i] || !all_deps_placed(g, placed@, i),
        decreases count_false(placed@) + (if progress {
            1nat
        } else {
            0nat
        }),
    {
        let ghost start = placed@;
        progress = false;
        let mut i: usize = 0;
        while i < n
            invariant
                g.wf(),
                n == g.nodes@.len(),
                i <= n,
                placed@.len() == n,
                placement_ok(g, placed@, pos, idx, order@),
                progress ==> count_false(placed@) < count_false(start),
                !progress ==> placed@ == start,
                !progress ==> forall|i2: int|
                    0 <= i2 < i ==> placed@[i2] || !all_deps_placed(g, placed@, i2),
            decreases n - i,
        {
            if !placed[i] && deps_placed(g, &placed, i) {
                proof {
                    lemma_placement_step(g, placed@, pos, idx, order@, i as int);
                    pos = pos.update(i as int, order@.len() as int);
                    idx = idx.push(i as int);
                }
                placed.set(i, true);
                order.push(g.nodes[i]);
                progress = true;
            }
            i = i + 1;
        }
    }
    if order.len() == n {
        proof {
            lemma_placement_complete(g, placed@, pos, idx, order@);
            lemma_order_excludes_cycle(g, order@);
        }
        Ok(order)
    } else {
        proof {
            lemma_placement_stuck(g, placed@, pos, idx, order@);
        }
        Err(own("Circular dependency detected."))
    }
}

proof fn lemma_first_position(order: Seq<u64>, s: Set<u64>, w: int) -> (p: int)
    requires
        0 <= w < order.len(),
        s.contains(order[w]),
    ensures
        0 <= p <= w,
        s.contains(order[p]),
        forall|q: int| 0 <= q < p ==> !s.contains(order[q]),
    decreases w,
{
    if exists|q: int| 0 <= q < w && s.contains(order[q]) {
        let q = choose|q: int| 0 <= q < w && s.contains(order[q]);
        lemma_first_position(order, s, q)
    } else {
        w
    }
}

/// A dependency-first order exists only when there is no circular dependency.
pub proof fn lemma_order_excludes_cycle(g: &DependencyGraph, order: Seq<u64>)
    requires
        g.wf(),
        g.is_dependency_first_order(order),
    ensures
        !g.has_dependency_cycle(),
{
    if g.has_dependency_cycle() {
        let s = choose|s: Set<u64>| g.is_cycle_set(s);
        let x0 = choose|x: u64| s.contains(x);
        assert(g.nodes@.contains(x0));
        assert(order.contains(x0));
        let w = choose|w: int| 0 <= w < order.len() && order[w] == x0;
        let p = lemma_first_position(order, s, w);
        let x = order[p];
        assert(g.depends_within(s, x));
        reveal(DependencyGraph::depends_within);
        let y = choose|y: u64| s.contains(y) && g.depends(x, y);
        assert(g.nodes@.contains(y));
        assert(order.contains(y));
        let q = choose|q: int| 0 <= q < order.len() && order[q] == y;
        assert(g.depends(order[p], order[q]));
        assert(q < p);
        assert(!s.contains(order[q]));
    }
}


// ---------------------------------------------------------------------------
// Discovering what an install needs
// ---------------------------------------------------------------------------

/// Walk over the dependencies of a mod: `graph` holds the mods whose
/// dependencies were fetched, `stack` those still to visit.
pub struct InstallOrderDiscovery {
    pub graph: DependencyGraph,
    pub stack: Vec<u64>,
    pub root: u64,
}

impl InstallOrderDiscovery {
    /// The graph holds each mod once, and every dependency it lists is
    /// either in the graph or waiting on the stack, as is the root.
    pub open spec fn wf(&self) -> bool {
        &&& self.graph.wf()
        &&& (self.graph.nodes@.contains(self.root) || self.stack@.contains(self.root))
        &&& forall|i: int, k: int|
            0 <= i < self.graph.nodes@.len() && 0 <= k < self.graph.deps@[i]@.len() ==> (
            self.graph.nodes@.contains(#[trigger] self.graph.deps@[i]@[k])
                || self.stack@.contains(self.graph.deps@[i]@[k]))
    }

    /// Every dependency listed in the graph is itself in the graph.
    pub open spec fn is_closed(&self) -> bool {
        forall|i: int, k: int|
            0 <= i < self.graph.nodes@.len() && 0 <= k < self.graph.deps@[i]@.len()
                ==> self.graph.nodes@.contains(#[trigger] self.graph.deps@[i]@[k])
    }

    pub fn new(root: u64) -> (r: InstallOrderDiscovery)
        ensures
            r.wf(),
            r.root == root,
            r.graph.nodes@.len() == 0,
            r.stack@ == seq![root],
    {
        let mut stack: Vec<u64> = Vec::new();
        stack.push(root);
        assert(stack@[0] == root);
        InstallOrderDiscovery {
            graph: DependencyGraph { nodes: Vec::new(), deps: Vec::new() },
            stack,
            root,
        }
    }

    /// The next mod whose dependencies must be fetched; mods already visited
    /// are dropped from the stack. `None` once the walk is over, and then the
    /// graph holds the root and all it depends on.
    pub fn next_pending(&mut self) -> (r: Option<u64>)
        requires
            old(self).wf(),
        ensures
            final(self).wf(),
            final(self).graph == old(self).graph,
            final(self).root == old(self).root,
            r matches Some(x) ==> !final(self).graph.nodes@.contains(x) && final(self).stack@.contains(x),
            r is None ==> final(self).is_closed() && final(self).graph.nodes@.contains(final(self).root),
            final(self).stack@ == old(self).stack@.take(final(self).stack@.len() as int),
            forall|k: int|
                final(self).stack@.len() <= k < old(self).stack@.len() ==> final(self).graph.nodes@.contains(
                    #[trigger] old(self).stack@[k],
                ),
            r matches Some(x) ==> final(self).stack@.len() > 0 && final(self).stack@.last() == x,
            r is None ==> final(self).stack@.len() == 0,
    {
        loop
            invariant
                self.wf(),
                self.graph == old(self).graph,
                self.root == old(self).root,
                self.stack@.len() <= old(self).stack@.len(),
                self.stack@ == old(self).stack@.take(self.stack@.len() as int),
                forall|k: int|
                    self.stack@.len() <= k < old(self).stack@.len() ==> self.graph.nodes@.contains(
                        #[trigger] old(self).stack@[k],
                    ),
            decreases self.stack@.len(),
        {
            let ghost s0 = self.stack@;
            let top = match self.stack.pop() {
                Some(x) => x,
                None => {
                    return None;
                },
            };
            if position_in(&self.graph.nodes, top).is_none() {
                self.stack.push(top);
                assert(self.stack@ =~= s0);
                assert(self.stack@.last() == top);
                return Some(top);
            }
            proof {
                assert(self.stack@ =~= s0.drop_last());
                assert(old(self).stack@.take(self.stack@.len() as int) =~= s0.drop_last());
                assert(s0[s0.len() - 1] == top);
                assert forall|d: u64| s0.contains(d) implies d == top || self.stack@.contains(d) by {
                    let w = choose|w: int| 0 <= w < s0.len() && s0[w] == d;
                    if w < s0.len() - 1 {
                        assert(self.stack@[w] == d);
                    }
                }
            }
        }
    }

    /// Records the dependencies fetched for `mod_id` and queues them.
    pub fn record(&mut self, mod_id: u64, deps: Vec<u64>)
        requires
            old(self).wf(),
            !old(self).graph.nodes@.contains(mod_id),
            old(self).stack@.contains(mod_id),
        ensures
            final(self).wf(),
            final(self).root == old(self).root,
            final(self).graph.nodes@ == old(self).graph.nodes@.push(mod_id),
            final(self).graph.deps@ == old(self).graph.deps@.push(deps),
            final(self).stack@ == old(self).stack@ + deps@,
    {
        let mut i: usize = 0;
        let ghost stack0 = self.stack@;
        while i < deps.len()
            invariant
                i <= deps.len(),
                self.graph == old(self).graph,
                self.root == old(self).root,
                self.stack@.len() == stack0.len() + i,
                forall|k: int| 0 <= k < stack0.len() ==> self.stack@[k] == stack0[k],
                forall|k: int| 0 <= k < i ==> self.stack@[stack0.len() + k] == deps@[k],
            decreases deps.len() - i,
        {
            self.stack.push(deps[i]);
            i = i + 1;
        }
        let ghost g0 = self.graph;
        self.graph.nodes.push(mod_id);
        self.graph.deps.push(deps);
        proof {
            assert forall|x: u64| stack0.contains(x) implies self.stack@.contains(x) by {
                let k = choose|k: int| 0 <= k < stack0.len() && stack0[k] == x;
                assert(self.stack@[k] == x);
            }
            assert(self.graph.nodes@.no_duplicates()) by {
                assert forall|a: int, b: int|
                    0 <= a < self.graph.nodes@.len() && 0 <= b < self.graph.nodes@.len() && a != b
                    implies self.graph.nodes@[a] != self.graph.nodes@[b] by {
                    if a < g0.nodes@.len() && b < g0.nodes@.len() {
                    } else if a == g0.nodes@.len() {
                        assert(self.graph.nodes@[b] == g0.nodes@[b]);
                        assert(g0.nodes@.contains(g0.nodes@[b]));
                    } else {
                        assert(self.graph.nodes@[a] == g0.nodes@[a]);
                        assert(g0.nodes@.contains(g0.nodes@[a]));
                    }
                }
            }
            assert forall|i2: int, k: int|
                0 <= i2 < self.graph.nodes@.len() && 0 <= k < self.graph.deps@[i2]@.len() implies (
                self.graph.nodes@.contains(#[trigger] self.graph.deps@[i2]@[k])
                    || self.stack@.contains(self.graph.deps@[i2]@[k])) by {
                if i2 < g0.nodes@.len() {
                    let d = g0.deps@[i2]@[k];
                    assert(self.graph.deps@[i2] == g0.deps@[i2]);
                    if g0.nodes@.contains(d) {
                        let w = choose|w: int| 0 <= w < g0.nodes@.len() && g0.nodes@[w] == d;
                        assert(self.graph.nodes@[w] == d);
                    } else {
                        assert(stack0.contains(d));
                    }
                } else {
                    assert(self.stack@[stack0.len() + k] == deps@[k]);
                }
            }
            if g0.nodes@.contains(self.root) {
                let w = choose|w: int| 0 <= w < g0.nodes@.len() && g0.nodes@[w] == self.root;
                assert(self.graph.nodes@[w] == self.root);
            }
            assert(self.stack@ =~= stack0 + deps@);
        }
    }
}

// ---------------------------------------------------------------------------
// Install pass decisions
// ---------------------------------------------------------------------------

/// The install targets after adding one subscription's order: its mods that
/// are not ignored and not already listed, in order.
pub open spec fn append_targets_spec(acc: Seq<u64>, order: Seq<u64>, ignored: Seq<u64>) -> Seq<u64>
    decreases order.len(),
{
    if order.len() == 0 {
        acc
    } else {
        let prev = append_targets_spec(acc, order.drop_last(), ignored);
        let t = order.last();
        if ignored.contains(t) || prev.contains(t) {
            prev
        } else {
            prev.push(t)
        }
    }
}

#[verifier::spinoff_prover]
#[verifier::rlimit(30)]
pub fn append_install_targets(targets: &mut Vec<u64>, order: &Vec<u64>, ignored: &Vec<u64>)
    ensures
        final(targets)@ == append_targets_spec(old(targets)@, order@, ignored@),
        old(targets)@.no_duplicates() ==> final(targets)@.no_duplicates(),
        forall|x: u64|
            final(targets)@.contains(x) <==> (old(targets)@.contains(x) || (order@.contains(x)
                && !ignored@.contains(x))),
{
    let ghost acc = targets@;
    let mut i: usize = 0;
    assert(order@.take(0) =~= Seq::<u64>::empty());
    while i < order.len()
        invariant
            i <= order.len(),
            targets@ == append_targets_spec(acc, order@.take(i as int), ignored@),
            acc.no_duplicates() ==> targets@.no_duplicates(),
            forall|x: u64|
                targets@.contains(x) <==> (acc.contains(x) || (order@.take(i as int).contains(x)
                    && !ignored@.contains(x))),
        decreases order.len() - i,
    {
        let t = order[i];
        assert(order@.take(i + 1).drop_last() =~= order@.take(i as int));
        assert(order@.take(i + 1).last() == t);
        let ghost before = targets@;
        if position_in(ignored, t).is_none() && position_in(targets, t).is_none() {
            targets.push(t);
            proof {
                assert forall|a: int, b: int|
                    acc.no_duplicates() && 0 <= a < b < targets@.len() implies targets@[a]
                    != targets@[b] by {
                    if b == before.len() {
                        assert(before.contains(before[a]));
                    }
                }
            }
        }
        proof {
            let tk = order@.take(i as int);
            let tk1 = order@.take(i + 1);
            assert(tk1 =~= tk.push(t));
            assert forall|x: u64| tk1.contains(x) <==> (tk.contains(x) || x == t) by {
                if tk.contains(x) {
                    let w = choose|w: int| 0 <= w < tk.len() && #[trigger] tk[w] == x;
                    assert(tk1[w] == x);
                }
                if tk1.contains(x) && x != t {
                    let w = choose|w: int| 0 <= w < tk1.len() && #[trigger] tk1[w] == x;
                    assert(tk[w] == x);
                }
                assert(tk1[i as int] == t);
            }
            assert forall|x: u64| targets@.contains(x) <==> (before.contains(x) || (x == t
                && !ignored@.contains(x))) by {
                if targets@.contains(x) && !before.contains(x) {
                    let w = choose|w: int| 0 <= w < targets@.len() && #[trigger] targets@[w] == x;
                    assert(w == before.len());
                }
                if before.contains(x) {
                    let w = choose|w: int| 0 <= w < before.len() && #[trigger] before[w] == x;
                    assert(targets@[w] == x);
                }
                if x == t && !ignored@.contains(x) && !before.contains(x) {
                    assert(targets@[before.len() as int] == x);
                }
            }
        }
        i = i + 1;
    }
    assert(order@.take(i as int) =~= order@);
}

/// The subscribed mods that sync should consider: all but the ignored ones.
pub fn without_ignored(ids: &Vec<u64>, ignored: &Vec<u64>) -> (r: Vec<u64>)
    ensures
        r@ == ids@.filter(|x: u64| !ignored@.contains(x)),
{
    let ghost pred = |x: u64| !ignored@.contains(x);
    let mut r: Vec<u64> = Vec::new();
    let mut i: usize = 0;
    proof {
        reveal(Seq::filter);
    }
    assert(ids@.take(0) =~= Seq::<u64>::empty());
    while i < ids.len()
        invariant
            i <= ids.len(),
            pred == (|x: u64| !ignored@.contains(x)),
            r@ == ids@.take(i as int).filter(pred),
        decreases ids.len() - i,
    {
        proof {
            assert(ids@.take(i + 1) =~= ids@.take(i as int).push(ids@[i as int]));
            ids@.take(i as int).lemma_filter_push(ids@[i as int], pred);
        }
        if position_in(ignored, ids[i]).is_none() {
            r.push(ids[i]);
        }
        i = i + 1;
    }
    assert(ids@.take(i as int) =~= ids@);
    r
}

/// The library entry of an installed mod: the record's ids, kind and folder,
/// the mod's name, summary, small logo and tag names, the latest file and
/// whether it differs from the installed one, and the uninstall blockers.
pub fn installed_mod_entry(record: InstalledModRecord, mod_: &ModObject, blockers: Vec<UninstallBlocker>) -> (r:
    InstalledModEntry)
    ensures
        r.mod_id == record.mod_id,
        r.file_id == record.file_id,
        r.kind == record.kind,
        r.folder_name == record.folder_name,
        r.name@ == mod_.name@,
        r.summary@ == mod_.summary@,
        r.logo_url@ == mod_.logo.thumb_320x180@,
        strings_view(r.tags@) == tag_names_view(mod_.tags@),
        r.latest_file_id == (match mod_.modfile {
            Some(f) => Some(f.id),
            None => None,
        }),
        r.update_available == (mod_.modfile matches Some(f) && f.id != record.file_id),
        r.can_uninstall == (blockers@.len() == 0),
        r.uninstall_blocked_by == blockers,
{
    let latest_file_id = match &mod_.modfile {
        Some(f) => Some(f.id),
        None => None,
    };
    let update_available = match latest_file_id {
        Some(latest) => latest != record.file_id,
        None => false,
    };
    let can_uninstall = blockers.len() == 0;
    InstalledModEntry {
        mod_id: record.mod_id,
        file_id: record.file_id,
        kind: record.kind,
        folder_name: record.folder_name,
        name: own(mod_.name.as_str()),
        summary: own(mod_.summary.as_str()),
        logo_url: own(mod_.logo.thumb_320x180.as_str()),
        tags: tag_names(&mod_.tags),
        update_available,
        latest_file_id,
        can_uninstall,
        uninstall_blocked_by: blockers,
    }
}

/// The new name of a folder from older versions (`<mod>_<file>` only): the
/// named form, unless the mod's current file is another one.
pub fn legacy_folder_rename(folder_name: &str, mod_name: &str, latest_file_id: Option<u64>) -> (r: Option<
    String,
>)
    ensures
        match r {
            Some(n) => is_legacy_spec(folder_name@) && (parse_folder_spec(folder_name@) matches Some(
                (m, f),
            ) && !(latest_file_id matches Some(l) && l != f) && n@ == install_folder_spec(m, f, mod_name@)),
            None => !is_legacy_spec(folder_name@) || parse_folder_spec(folder_name@) is None || (
            latest_file_id matches Some(l) && (parse_folder_spec(folder_name@) matches Some((_, f)) && l
                != f)),
        },
{
    if !is_legacy_install_folder_name(folder_name) {
        return None;
    }
    match parse_install_folder_name(folder_name) {
        Some((mod_id, file_id)) => {
            match latest_file_id {
                Some(l) => {
                    if l != file_id {
                        return None;
                    }
                },
                None => {},
            }
            Some(install_folder_name(mod_id, file_id, mod_name))
        },
        None => None,
    }
}

/// What an install pass does with one target.
pub enum TargetAction {
    /// Leave it alone (up to date, or an update that auto-update does not take).
    Skip,
    /// Install it, optionally a specific file.
    Install { file_id: Option<u64> },
}

/// The decision for one target given its install state: an up-to-date mod is
/// skipped unless a specific other file of it was asked for; an outdated one
/// is skipped when auto-update is off; anything else is installed, with the
/// requested file when the request names this mod.
pub open spec fn target_action_spec(
    target: u64,
    status: Seq<char>,
    installed_file_id: Option<u64>,
    auto_update: bool,
    file_override: Option<(u64, u64)>,
) -> TargetAction {
    let wants_other_file = match file_override {
        Some((m, f)) => m == target && installed_file_id != Some(f),
        None => false,
    };
    if status == "upToDate"@ && !wants_other_file {
        TargetAction::Skip
    } else if status == "updateAvailable"@ && !auto_update {
        TargetAction::Skip
    } else {
        TargetAction::Install {
            file_id: match file_override {
                Some((m, f)) => if m == target {
                    Some(f)
                } else {
                    None
                },
                None => None,
            },
        }
    }
}

pub fn target_action(
    target: u64,
    state: &ModInstallState,
    auto_update: bool,
    file_override: Option<(u64, u64)>,
) -> (r: TargetAction)
    ensures
        r == target_action_spec(
            target,
            state.status@,
            state.installed_file_id,
            auto_update,
            file_override,
        ),
{
    let status = chars_of(state.status.as_str());
    let wants_other_file = match file_override {
        Some((m, f)) => m == target && state.installed_file_id != Some(f),
        None => false,
    };
    if chars_eq(&status, &chars_of("upToDate")) && !wants_other_file {
        return TargetAction::Skip;
    }
    if chars_eq(&status, &chars_of("updateAvailable")) && !auto_update {
        return TargetAction::Skip;
    }
    TargetAction::Install {
        file_id: match file_override {
            Some((m, f)) => if m == target {
                Some(f)
            } else {
                None
            },
            None => None,
        },
    }
}

/// Installing a mod on the account profile subscribes to it on mod.io,
/// unless the (sorted) subscriptions hold it already.
pub fn subscribe_needed(logged_in: bool, is_user_profile: bool, subscribed: &Vec<u64>, mod_id: u64) -> (r: bool)
    requires
        crate::ids::strictly_increasing(subscribed@),
    ensures
        r == (logged_in && is_user_profile && !subscribed@.contains(mod_id)),
{
    logged_in && is_user_profile && !crate::ids::sorted_contains(subscribed, mod_id)
}

/// What the caller does next with one target of an install pass.
pub enum PassStep {
    /// Nothing more for this target.
    Done,
    /// Nothing more for this target; its recorded sync failure is cleared.
    ClearFailure,
    /// The target failed during sync and is one of the subscribed roots: its
    /// failure is recorded.
    RecordFailure,
    /// Install the target, optionally a specific file.
    Install { file_id: Option<u64> },
}

/// The bookkeeping of one install pass over an install order: the targets
/// installed and those skipped, in the order they were decided. During
/// subscription sync (`sync`) a failing target is recorded (when it is one of
/// `failure_roots`) and the pass goes on; otherwise the first failure ends the
/// pass with its message.
pub struct InstallPass {
    pub sync: bool,
    pub auto_update: bool,
    pub file_override: Option<(u64, u64)>,
    pub failure_roots: Vec<u64>,
    pub installed: Vec<u64>,
    pub skipped: Vec<u64>,
}

/// What a failure of `target` during a pass leads to.
pub open spec fn failure_step(sync: bool, failure_roots: Seq<u64>, target: u64, message: Seq<char>) -> Result<
    PassStep,
    Seq<char>,
> {
    if sync {
        if failure_roots.contains(target) {
            Ok(PassStep::RecordFailure)
        } else {
            Ok(PassStep::Done)
        }
    } else {
        Err(message)
    }
}

pub open spec fn step_view(r: Result<PassStep, String>) -> Result<PassStep, Seq<char>> {
    match r {
        Ok(s) => Ok(s),
        Err(m) => Err(m@),
    }
}

impl InstallPass {
    pub fn new(sync: bool, auto_update: bool, file_override: Option<(u64, u64)>, failure_roots: Vec<u64>) -> (r:
        InstallPass)
        ensures
            r.sync == sync,
            r.auto_update == auto_update,
            r.file_override == file_override,
            r.failure_roots == failure_roots,
            r.installed@.len() == 0,
            r.skipped@.len() == 0,
    {
        InstallPass {
            sync,
            auto_update,
            file_override,
            failure_roots,
            installed: Vec::new(),
            skipped: Vec::new(),
        }
    }

    fn failure(&self, target: u64, message: String) -> (r: Result<PassStep, String>)
        ensures
            step_view(r) == failure_step(self.sync, self.failure_roots@, target, message@),
    {
        if self.sync {
            if position_in(&self.failure_roots, target).is_some() {
                Ok(PassStep::RecordFailure)
            } else {
                Ok(PassStep::Done)
            }
        } else {
            Err(message)
        }
    }

    /// The target's install state came back: a skipped target is noted (and
    /// during sync its failure cleared); otherwise it is to be installed. A
    /// failed lookup is a failure of the target.
    pub fn after_install_state(&mut self, target: u64, state: Result<ModInstallState, String>) -> (r: Result<
        PassStep,
        String,
    >)
        ensures
            final(self).sync == old(self).sync,
            final(self).auto_update == old(self).auto_update,
            final(self).file_override == old(self).file_override,
            final(self).failure_roots == old(self).failure_roots,
            final(self).installed == old(self).installed,
            match state {
                Err(m) => step_view(r) == failure_step(old(self).sync, old(self).failure_roots@, target, m@)
                    && final(self).skipped@ == old(self).skipped@,
                Ok(s) => match target_action_spec(
                    target,
                    s.status@,
                    s.installed_file_id,
                    old(self).auto_update,
                    old(self).file_override,
                ) {
                    TargetAction::Skip => final(self).skipped@ == old(self).skipped@.push(target) && r
                        == Ok::<PassStep, String>(
                        if old(self).sync {
                            PassStep::ClearFailure
                        } else {
                            PassStep::Done
                        },
                    ),
                    TargetAction::Install { file_id } => final(self).skipped@ == old(self).skipped@ && r
                        == Ok::<PassStep, String>(PassStep::Install { file_id }),
                },
            },
    {
        match state {
            Err(m) => self.failure(target, m),
            Ok(s) => match target_action(target, &s, self.auto_update, self.file_override) {
                TargetAction::Skip => {
                    self.skipped.push(target);
                    if self.sync {
                        Ok(PassStep::ClearFailure)
                    } else {
                        Ok(PassStep::Done)
                    }
                },
                TargetAction::Install { file_id } => Ok(PassStep::Install { file_id }),
            },
        }
    }

    /// The target's install finished: an installed target is noted (and
    /// during sync its failure cleared; the caller then rescans the installed
    /// mods); a failed one is a failure of the target.
    pub fn after_install(&mut self, target: u64, outcome: Result<(), String>) -> (r: Result<PassStep, String>)
        ensures
            final(self).sync == old(self).sync,
            final(self).auto_update == old(self).auto_update,
            final(self).file_override == old(self).file_override,
            final(self).failure_roots == old(self).failure_roots,
            final(self).skipped == old(self).skipped,
            match outcome {
                Err(m) => step_view(r) == failure_step(old(self).sync, old(self).failure_roots@, target, m@)
                    && final(self).installed@ == old(self).installed@,
                Ok(()) => final(self).installed@ == old(self).installed@.push(target) && r == Ok::<
                    PassStep,
                    String,
                >(
                    if old(self).sync {
                        PassStep::ClearFailure
                    } else {
                        PassStep::Done
                    },
                ),
            },
    {
        match outcome {
            Err(m) => self.failure(target, m),
            Ok(()) => {
                self.installed.push(target);
                if self.sync {
                    Ok(PassStep::ClearFailure)
                } else {
                    Ok(PassStep::Done)
                }
            },
        }
    }

    /// The pass's result.
    pub fn finish(self) -> (r: InstallModResult)
        ensures
            r.installed == self.installed,
            r.skipped == self.skipped,
    {
        InstallModResult { installed: self.installed, skipped: self.skipped }
    }
}

/// What subscription sync does before installing anything: nothing without
/// a login or off the account profile, refuse on the Vanilla profile.
pub fn sync_precheck(logged_in: bool, is_user_profile: bool, install_blocked: bool) -> (r: Result<
    bool,
    String,
>)
    ensures
        !logged_in ==> r == Ok::<bool, String>(false),
        logged_in && !is_user_profile ==> r == Ok::<bool, String>(false),
        logged_in && is_user_profile && install_blocked ==> (r matches Err(m) && m@
            == VANILLA_INSTALL_BLOCKED@),
        logged_in && is_user_profile && !install_blocked ==> r == Ok::<bool, String>(true),
{
    if !logged_in || !is_user_profile {
        return Ok(false);
    }
    if install_blocked {
        return Err(own(VANILLA_INSTALL_BLOCKED));
    }
    Ok(true)
}

pub const VANILLA_INSTALL_BLOCKED: &'static str =
    "Installing mods is disabled for the Vanilla profile. Switch to another profile.";

pub const SUBSCRIPTION_SYNC_CANCELLED: &'static str = "Subscription sync cancelled";

/// Whether sync may go on: not after a cancel, and only on the account profile.
pub fn sync_may_continue(cancelled: bool, is_user_profile: bool) -> (r: Result<(), String>)
    ensures
        (!cancelled && is_user_profile) ==> r is Ok,
        (cancelled || !is_user_profile) ==> (r matches Err(m) && m@ == SUBSCRIPTION_SYNC_CANCELLED@),
{
    if cancelled || !is_user_profile {
        return Err(own(SUBSCRIPTION_SYNC_CANCELLED));
    }
    Ok(())
}

/// The text of `str::to_lowercase` for `s`.
pub uninterp spec fn lowercase_text(s: Seq<char>) -> Seq<char>;

/// `str::to_lowercase` (Unicode lower case); its text is named, not stated.
#[verifier::external_body]
fn to_lowercase(s: &str) -> (r: String)
    ensures
        r@ == lowercase_text(s@),
{
    s.to_lowercase()
}

pub open spec fn blockers_view(bs: Seq<UninstallBlocker>) -> Seq<(u64, Seq<char>)> {
    bs.map_values(|b: UninstallBlocker| (b.mod_id, b.name@))
}

/// How many leading blockers sort at or before `x` by lower-cased name.
pub open spec fn blocker_insert_pos(sorted: Seq<(u64, Seq<char>)>, x: (u64, Seq<char>)) -> int
    decreases sorted.len(),
{
    if sorted.len() > 0 && lex_le(lowercase_text(sorted[0].1), lowercase_text(x.1)) {
        1 + blocker_insert_pos(sorted.skip(1), x)
    } else {
        0
    }
}

/// The blockers in stable order of their lower-cased names: each goes after
/// all earlier ones whose name sorts at or before its own.
pub open spec fn sort_blockers_spec(s: Seq<(u64, Seq<char>)>) -> Seq<(u64, Seq<char>)>
    decreases s.len(),
{
    if s.len() == 0 {
        s
    } else {
        let t = sort_blockers_spec(s.drop_last());
        let k = blocker_insert_pos(t, s.last());
        t.take(k).push(s.last()) + t.skip(k)
    }
}

fn insert_blocker(sorted: &mut Vec<UninstallBlocker>, x: UninstallBlocker)
    ensures
        blockers_view(final(sorted)@) == blockers_view(old(sorted)@).take(
            blocker_insert_pos(blockers_view(old(sorted)@), (x.mod_id, x.name@)),
        ).push((x.mod_id, x.name@)) + blockers_view(old(sorted)@).skip(
            blocker_insert_pos(blockers_view(old(sorted)@), (x.mod_id, x.name@)),
        ),
{
    let ghost sv = blockers_view(sorted@);
    let ghost xv = (x.mod_id, x.name@);
    let xl = chars_of(to_lowercase(x.name.as_str()).as_str());
    let mut k: usize = 0;
    assert(sv.skip(0) =~= sv);
    while k < sorted.len() && lex_le_exec(&chars_of(to_lowercase(sorted[k].name.as_str()).as_str()), &xl)
        invariant
            k <= sorted.len(),
            sv == blockers_view(sorted@),
            xl@ == lowercase_text(xv.1),
            xv == (x.mod_id, x.name@),
            blocker_insert_pos(sv, xv) == k + blocker_insert_pos(sv.skip(k as int), xv),
        decreases sorted.len() - k,
    {
        assert(sv.skip(k as int)[0] == sv[k as int]);
        assert(sv.skip(k as int).skip(1) =~= sv.skip(k + 1));
        k = k + 1;
    }
    if k < sorted.len() {
        assert(sv.skip(k as int)[0] == sv[k as int]);
    }
    assert(blocker_insert_pos(sv.skip(k as int), xv) == 0);
    sorted.insert(k, x);
    assert(blockers_view(sorted@) =~= sv.take(k as int).push(xv) + sv.skip(k as int));
}

/// The mods that block an uninstall, ordered by lower-cased name as the
/// message and the UI list them (equal names keep their order).
pub fn sort_blockers(blockers: Vec<UninstallBlocker>) -> (r: Vec<UninstallBlocker>)
    ensures
        blockers_view(r@) == sort_blockers_spec(blockers_view(blockers@)),
{
    let ghost bv = blockers_view(blockers@);
    let mut sorted: Vec<UninstallBlocker> = Vec::new();
    let mut i: usize = 0;
    assert(bv.take(0) =~= Seq::<(u64, Seq<char>)>::empty());
    while i < blockers.len()
        invariant
            i <= blockers.len(),
            bv == blockers_view(blockers@),
            blockers_view(sorted@) == sort_blockers_spec(bv.take(i as int)),
        decreases blockers.len() - i,
    {
        assert(bv.take(i + 1).drop_last() =~= bv.take(i as int));
        assert(bv.take(i + 1).last() == (blockers@[i as int].mod_id, blockers@[i as int].name@));
        let b = UninstallBlocker { mod_id: blockers[i].mod_id, name: own(blockers[i].name.as_str()) };
        insert_blocker(&mut sorted, b);
        i = i + 1;
    }
    assert(bv.take(i as int) =~= bv);
    sorted
}

/// `Cannot uninstall: required by a, b.`
pub open spec fn uninstall_blocked_text(names: Seq<Seq<char>>) -> Seq<char> {
    "Cannot uninstall: required by "@ + crate::modio_api::join_spec(names, ", "@) + "."@
}

pub fn format_uninstall_blocked_error(blockers: &Vec<UninstallBlocker>) -> (r: String)
    ensures
        r@ == uninstall_blocked_text(blockers@.map_values(|b: UninstallBlocker| b.name@)),
{
    let mut names: Vec<String> = Vec::new();
    let mut i: usize = 0;
    while i < blockers.len()
        invariant
            i <= blockers.len(),
            names@.len() == i,
            forall|j: int| 0 <= j < i ==> names@[j]@ == blockers@[j].name@,
        decreases blockers.len() - i,
    {
        names.push(own(blockers[i].name.as_str()));
        i = i + 1;
    }
    assert(strings_view(names@) =~= blockers@.map_values(|b: UninstallBlocker| b.name@));
    let joined = crate::modio_api::join_strings(&names, ", ");
    let mut out = chars_of("Cannot uninstall: required by ");
    append_all(&mut out, &chars_of(joined.as_str()));
    append_all(&mut out, &chars_of("."));
    string_of(&out)
}

/// Uninstalling needs the mod installed and nothing installed depending on it.
pub fn uninstall_check(installed_ids: &Vec<u64>, mod_id: u64, blockers: &Vec<UninstallBlocker>) -> (r:
    Result<(), String>)
    ensures
        !installed_ids@.contains(mod_id) ==> (r matches Err(m) && m@ == "Mod is not installed."@),
        installed_ids@.contains(mod_id) && blockers@.len() > 0 ==> (r matches Err(m) && m@
            == uninstall_blocked_text(blockers@.map_values(|b: UninstallBlocker| b.name@))),
        installed_ids@.contains(mod_id) && blockers@.len() == 0 ==> r is Ok,
{
    if position_in(installed_ids, mod_id).is_none() {
        return Err(own("Mod is not installed."));
    }
    if blockers.len() > 0 {
        return Err(format_uninstall_blocked_error(blockers));
    }
    Ok(())
}

/// The installed mods that list `mod_id` among their dependencies (other than
/// itself), in the order the installed ids are given.
pub fn installed_dependents(
    mod_id: u64,
    dependency_map: &std::collections::HashMap<u64, Vec<u64>>,
    installed_ids: &Vec<u64>,
) -> (r: Vec<u64>)
    ensures
        r@ == installed_ids@.filter(
            |id: u64|
                id != mod_id && dependency_map@.contains_key(id) && dependency_map@[id]@.contains(
                    mod_id,
                ),
        ),
{
    broadcast use vstd::std_specs::hash::group_hash_axioms;
    let ghost pred = |id: u64|
        id != mod_id && dependency_map@.contains_key(id) && dependency_map@[id]@.contains(mod_id);
    let mut r: Vec<u64> = Vec::new();
    let mut i: usize = 0;
    proof {
        reveal(Seq::filter);
    }
    assert(installed_ids@.take(0) =~= Seq::<u64>::empty());
    while i < installed_ids.len()
        invariant
            i <= installed_ids.len(),
            pred == (|id: u64|
                id != mod_id && dependency_map@.contains_key(id) && dependency_map@[id]@.contains(
                    mod_id,
                )),
            r@ == installed_ids@.take(i as int).filter(pred),
        decreases installed_ids.len() - i,
    {
        proof {
            assert(installed_ids@.take(i + 1) =~= installed_ids@.take(i as int).push(
                installed_ids@[i as int],
            ));
            installed_ids@.take(i as int).lemma_filter_push(installed_ids@[i as int], pred);
        }
        let id = installed_ids[i];
        if id != mod_id {
            match dependency_map.get(&id) {
                Some(deps) => {
                    if position_in(deps, mod_id).is_some() {
                        r.push(id);
                    }
                },
                None => {},
            }
        }
        i = i + 1;
    }
    assert(installed_ids@.take(i as int) =~= installed_ids@);
    r
}

} // verus!
