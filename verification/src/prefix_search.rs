//! Where a Wine prefix (and a game installed in one) is looked for: the
//! directories searched, and the order in which candidates are tried. Paths
//! are canonical, slash-separated text; the caller probes the disk.
use vstd::prelude::*;

use crate::game_detect::strings_view;
use crate::game_path::GAME_EXECUTABLE;
use crate::paths::{join_path, join_path_spec};
use crate::sideload::{file_name_of, file_name_spec, last_index_of, parent_of, parent_spec};
use crate::text::{chars_eq, chars_of, opt_view, string_of, trim, trim_seq};
use crate::wine_prefix::WinePrefix;

verus! {

proof fn lemma_last_index_bounds(s: Seq<char>, c: char)
    ensures
        last_index_of(s, c) matches Some(i) ==> 0 <= i < s.len(),
    decreases s.len(),
{
    if s.len() > 0 && s.last() != c {
        lemma_last_index_bounds(s.drop_last(), c);
    }
}

/// A path's parent is shorter than the path.
pub proof fn lemma_parent_shorter(p: Seq<char>)
    ensures
        parent_spec(p) matches Some(q) ==> q.len() < p.len(),
{
    lemma_last_index_bounds(p, '/');
    reveal_strlit("/");
}

/// For each directory from `p` up (each one that has a parent) named
/// `drive_c`, its parent: where a Wine prefix holding `p` would sit, nearest
/// first.
pub open spec fn drive_c_candidates_spec(p: Seq<char>) -> Seq<Seq<char>>
    decreases p.len(),
{
    match parent_spec(p) {
        None => Seq::empty(),
        Some(q) => {
            proof {
                lemma_parent_shorter(p);
            }
            let rest = drive_c_candidates_spec(q);
            if file_name_spec(p) == "drive_c"@ {
                seq![q] + rest
            } else {
                rest
            }
        },
    }
}

/// The prefixes to probe for `user.reg` when the game directory lies inside
/// a prefix's `drive_c`, in the order they are tried.
pub fn drive_c_prefix_candidates(game_dir: &str) -> (r: Vec<String>)
    ensures
        strings_view(r@) == drive_c_candidates_spec(game_dir@),
{
    let mut out: Vec<String> = Vec::new();
    let mut cur = chars_of(game_dir);
    let drive_c = chars_of("drive_c");
    proof {
        reveal_strlit("drive_c");
    }
    loop
        invariant
            strings_view(out@) + drive_c_candidates_spec(cur@) == drive_c_candidates_spec(game_dir@),
            drive_c@ == "drive_c"@,
        decreases cur@.len(),
    {
        match parent_of(&cur) {
            None => {
                assert(strings_view(out@) + Seq::<Seq<char>>::empty() =~= strings_view(out@));
                return out;
            },
            Some(q) => {
                proof {
                    lemma_parent_shorter(cur@);
                }
                let ghost old_out = out@;
                let name = file_name_of(&cur);
                if chars_eq(&name, &drive_c) {
                    let s = string_of(&q);
                    out.push(s);
                    assert(strings_view(out@) =~= strings_view(old_out).push(q@));
                    assert(strings_view(out@) + drive_c_candidates_spec(q@) =~= strings_view(old_out)
                        + (seq![q@] + drive_c_candidates_spec(q@)));
                }
                cur = q;
            },
        }
    }
}

/// The nearest directory from `p` up named `common` whose parent is named
/// `steamapps`: that parent, where Steam keeps the game's Proton prefix.
pub open spec fn proton_steamapps_spec(p: Seq<char>) -> Option<Seq<char>>
    decreases p.len(),
{
    match parent_spec(p) {
        None => None,
        Some(q) => {
            proof {
                lemma_parent_shorter(p);
            }
            if file_name_spec(p) == "common"@ && file_name_spec(q) == "steamapps"@ {
                Some(q)
            } else {
                proton_steamapps_spec(q)
            }
        },
    }
}

/// Where to look for the Proton prefix of a game under `steamapps/common`.
pub struct ProtonSearch {
    /// The `steamapps` directory whose manifests name the game.
    pub steamapps: String,
    /// The game directory's own name, as manifests give `installdir`.
    pub installdir: String,
}

/// The Proton search for a game directory, if it lies under
/// `steamapps/common`.
pub fn proton_search(game_dir: &str) -> (r: Option<ProtonSearch>)
    ensures
        match proton_steamapps_spec(game_dir@) {
            Some(s) => r matches Some(ps) && ps.steamapps@ == s && ps.installdir@ == file_name_spec(
                game_dir@,
            ),
            None => r is None,
        },
{
    let g = chars_of(game_dir);
    let installdir = string_of(&file_name_of(&g));
    let mut cur = chars_of(game_dir);
    let common = chars_of("common");
    let steamapps = chars_of("steamapps");
    proof {
        reveal_strlit("common");
        reveal_strlit("steamapps");
    }
    loop
        invariant
            proton_steamapps_spec(cur@) == proton_steamapps_spec(game_dir@),
            common@ == "common"@,
            steamapps@ == "steamapps"@,
            installdir@ == file_name_spec(game_dir@),
        decreases cur@.len(),
    {
        match parent_of(&cur) {
            None => {
                return None;
            },
            Some(q) => {
                proof {
                    lemma_parent_shorter(cur@);
                }
                let name = file_name_of(&cur);
                let parent_name = file_name_of(&q);
                if chars_eq(&name, &common) && chars_eq(&parent_name, &steamapps) {
                    return Some(ProtonSearch { steamapps: string_of(&q), installdir });
                }
                cur = q;
            },
        }
    }
}

/// From directory `d` up (each one that has a parent): the parent of `d`
/// when `d` is named `drive_c`, then `d` itself.
pub open spec fn exe_dir_candidates_spec(d: Seq<char>) -> Seq<Seq<char>>
    decreases d.len(),
{
    match parent_spec(d) {
        None => Seq::empty(),
        Some(q) => {
            proof {
                lemma_parent_shorter(d);
            }
            let here = if file_name_spec(d) == "drive_c"@ {
                seq![q, d]
            } else {
                seq![d]
            };
            here + exe_dir_candidates_spec(q)
        },
    }
}

/// The directories probed for `user.reg` to find the prefix holding a game
/// executable found on disk, starting from the executable's directory.
pub open spec fn exe_prefix_candidates_spec(exe: Seq<char>) -> Seq<Seq<char>> {
    match parent_spec(exe) {
        None => Seq::empty(),
        Some(d) => exe_dir_candidates_spec(d),
    }
}

/// The prefix candidates for an executable, in the order they are tried.
pub fn exe_prefix_candidates(exe_path: &str) -> (r: Vec<String>)
    ensures
        strings_view(r@) == exe_prefix_candidates_spec(exe_path@),
{
    let mut out: Vec<String> = Vec::new();
    let mut cur = match parent_of(&chars_of(exe_path)) {
        Some(d) => d,
        None => return out,
    };
    let drive_c = chars_of("drive_c");
    proof {
        reveal_strlit("drive_c");
        assert(strings_view(out@) =~= Seq::<Seq<char>>::empty());
    }
    loop
        invariant
            strings_view(out@) + exe_dir_candidates_spec(cur@) == exe_prefix_candidates_spec(exe_path@),
            drive_c@ == "drive_c"@,
        decreases cur@.len(),
    {
        match parent_of(&cur) {
            None => {
                assert(strings_view(out@) + Seq::<Seq<char>>::empty() =~= strings_view(out@));
                return out;
            },
            Some(q) => {
                proof {
                    lemma_parent_shorter(cur@);
                }
                let ghost old_out = out@;
                let name = file_name_of(&cur);
                let ghost here = if name@ == "drive_c"@ {
                    seq![q@, cur@]
                } else {
                    seq![cur@]
                };
                if chars_eq(&name, &drive_c) {
                    out.push(string_of(&q));
                }
                out.push(string_of(&cur));
                assert(strings_view(out@) =~= strings_view(old_out) + here);
                assert(strings_view(out@) + exe_dir_candidates_spec(q@) =~= strings_view(old_out) + (here
                    + exe_dir_candidates_spec(q@)));
                cur = q;
            },
        }
    }
}

/// A prefix found at `path`, shown under the name of the directory
/// `named_by` (no name for the root).
pub fn labeled_prefix(path: String, named_by: &str) -> (r: WinePrefix)
    ensures
        r.path@ == path@,
        opt_view(r.label) == (if file_name_spec(named_by@).len() > 0 {
            Some(file_name_spec(named_by@))
        } else {
            None::<Seq<char>>
        }),
{
    let name = file_name_of(&chars_of(named_by));
    let label = if name.len() > 0 {
        Some(string_of(&name))
    } else {
        None
    };
    WinePrefix { path, label }
}

// ---------------------------------------------------------------------------
// Roots searched for prefixes
// ---------------------------------------------------------------------------

/// The operating system, as far as the searches differ between them.
#[derive(Clone, Copy, Debug, PartialEq, Eq, Structural)]
pub enum Platform {
    Windows,
    Linux,
    MacOs,
    Other,
}

/// The directories whose subdirectories may be Wine prefixes, under the home
/// directory `home`, in the order they are searched. On macOS, CrossOver's
/// configured bottle directory (what `defaults read` printed, trimmed) comes
/// first when it is set.
pub open spec fn prefix_scan_roots_spec(
    platform: Platform,
    home: Seq<char>,
    bottle_dir: Option<Seq<char>>,
) -> Seq<Seq<char>> {
    match platform {
        Platform::MacOs => {
            let base = seq![
                join_path_spec(home, "Library/Application Support/CrossOver/Bottles"@),
                join_path_spec(home, "Library/Application Support/CrossOver Games/Bottles"@),
            ];
            match bottle_dir {
                Some(b) => if trim_seq(b).len() > 0 {
                    seq![trim_seq(b)] + base
                } else {
                    base
                },
                None => base,
            }
        },
        Platform::Linux => seq![
            join_path_spec(home, ".local/share/Steam/steamapps/compatdata"@),
            join_path_spec(home, ".steam/debian-installation/steamapps/compatdata"@),
            join_path_spec(home, ".steam/steam/steamapps/compatdata"@),
            join_path_spec(home, "Games/Heroic/Prefixes"@),
            join_path_spec(home, ".wine"@),
            join_path_spec(home, ".cxoffice"@),
        ],
        _ => Seq::empty(),
    }
}

/// The prefix roots; `bottle_dir_output` is what asking CrossOver for its
/// bottle directory printed, when that succeeded.
pub fn prefix_scan_roots(platform: Platform, home: &str, bottle_dir_output: Option<String>) -> (r: Vec<
    String,
>)
    ensures
        strings_view(r@) == prefix_scan_roots_spec(platform, home@, opt_view(bottle_dir_output)),
{
    let mut v: Vec<String> = Vec::new();
    match platform {
        Platform::MacOs => {
            match bottle_dir_output {
                Some(out) => {
                    let t = trim(&chars_of(out.as_str()));
                    if t.len() > 0 {
                        v.push(string_of(&t));
                    }
                },
                None => {},
            }
            v.push(join_path(home, "Library/Application Support/CrossOver/Bottles"));
            v.push(join_path(home, "Library/Application Support/CrossOver Games/Bottles"));
        },
        Platform::Linux => {
            v.push(join_path(home, ".local/share/Steam/steamapps/compatdata"));
            v.push(join_path(home, ".steam/debian-installation/steamapps/compatdata"));
            v.push(join_path(home, ".steam/steam/steamapps/compatdata"));
            v.push(join_path(home, "Games/Heroic/Prefixes"));
            v.push(join_path(home, ".wine"));
            v.push(join_path(home, ".cxoffice"));
        },
        _ => {},
    }
    assert(strings_view(v@) =~= prefix_scan_roots_spec(platform, home@, opt_view(bottle_dir_output)));
    v
}

// ---------------------------------------------------------------------------
// Walking a directory tree
// ---------------------------------------------------------------------------

/// What a directory entry is (symbolic links followed).
#[derive(Clone, Copy, Debug, PartialEq, Eq, Structural)]
pub enum EntryKind {
    File,
    Dir,
    Other,
}

/// One entry of a directory listing: its full path, its name and its kind.
pub struct ListedEntry {
    pub path: String,
    pub name: String,
    pub kind: EntryKind,
}

/// A pending step of a walk for the game's executable.
enum WalkItem {
    /// The executable was found in this directory.
    Found(String),
    /// This directory is still to be listed, with this many levels left.
    Dir(String, u32),
}

/// A pending step of a walk, by its paths' text: a directory found to
/// hold the executable, or a directory still to list with its levels left.
pub enum WalkStep {
    Found(Seq<char>),
    Dir(Seq<char>, u32),
}

spec fn step_of(i: WalkItem) -> WalkStep {
    match i {
        WalkItem::Found(d) => WalkStep::Found(d@),
        WalkItem::Dir(p, n) => WalkStep::Dir(p@, n),
    }
}

spec fn steps_of(v: Seq<WalkItem>) -> Seq<WalkStep> {
    v.map_values(|i: WalkItem| step_of(i))
}

/// The steps that listing directory `dir` (with `depth` levels left) adds,
/// in listing order: the directory itself for each file named like the
/// game's executable, and each subdirectory while levels remain below it.
/// A directory with no levels left adds nothing: it is not looked into.
pub open spec fn listing_steps(entries: Seq<ListedEntry>, dir: Seq<char>, depth: u32) -> Seq<WalkStep>
    decreases entries.len(),
{
    if entries.len() == 0 || depth == 0 {
        Seq::empty()
    } else {
        let e = entries[0];
        let here: Seq<WalkStep> = match e.kind {
            EntryKind::File => if e.name@ == GAME_EXECUTABLE@ {
                seq![WalkStep::Found(dir)]
            } else {
                Seq::empty()
            },
            EntryKind::Dir => if depth > 1 {
                seq![WalkStep::Dir(e.path@, (depth - 1) as u32)]
            } else {
                Seq::empty()
            },
            EntryKind::Other => Seq::empty(),
        };
        here + listing_steps(entries.drop_first(), dir, depth)
    }
}

/// Taking steps off the top of the stack `pending`: found directories are
/// recorded until a directory to list comes up.
pub open spec fn drain(pending: Seq<WalkStep>, found: Seq<Seq<char>>) -> (Seq<WalkStep>, Seq<Seq<char>>, Option<
    (Seq<char>, u32),
>)
    decreases pending.len(),
{
    if pending.len() == 0 {
        (pending, found, None)
    } else {
        match pending.last() {
            WalkStep::Found(d) => drain(pending.drop_last(), found.push(d)),
            WalkStep::Dir(p, n) => (pending.drop_last(), found, Some((p, n))),
        }
    }
}

/// A depth-limited walk from a root for directories that hold the game's
/// executable, depth first in listing order: the caller lists each directory
/// that `next_dir` hands out and gives the listing to `visit`.
pub struct GameDirWalk {
    pending: Vec<WalkItem>,
    found: Vec<String>,
    current: Option<(String, u32)>,
}

impl GameDirWalk {
    pub closed spec fn pending_view(&self) -> Seq<WalkStep> {
        steps_of(self.pending@)
    }

    pub closed spec fn found_view(&self) -> Seq<Seq<char>> {
        strings_view(self.found@)
    }

    /// The directory handed out and not yet visited, with its levels left.
    pub closed spec fn current_view(&self) -> Option<(Seq<char>, u32)> {
        match self.current {
            Some((d, n)) => Some((d@, n)),
            None => None,
        }
    }

    /// A walk of `root` going `max_depth` levels deep (none at 0).
    pub fn new(root: String, max_depth: u32) -> (r: GameDirWalk)
        ensures
            r.pending_view() == (if max_depth > 0 {
                seq![WalkStep::Dir(root@, max_depth)]
            } else {
                Seq::empty()
            }),
            r.found_view() == Seq::<Seq<char>>::empty(),
            r.current_view() is None,
    {
        let mut pending: Vec<WalkItem> = Vec::new();
        if max_depth > 0 {
            pending.push(WalkItem::Dir(root, max_depth));
        }
        let r = GameDirWalk { pending, found: Vec::new(), current: None };
        assert(r.pending_view() =~= (if max_depth > 0 {
            seq![WalkStep::Dir(root@, max_depth)]
        } else {
            Seq::empty()
        }));
        assert(r.found_view() =~= Seq::<Seq<char>>::empty());
        r
    }

    /// The next directory to list, or `None` when the walk is over.
    pub fn next_dir(&mut self) -> (r: Option<String>)
        ensures
            ({
                let (p, f, c) = drain(old(self).pending_view(), old(self).found_view());
                &&& final(self).pending_view() == p
                &&& final(self).found_view() == f
                &&& final(self).current_view() == c
                &&& match c {
                    Some((d, _)) => r matches Some(s) && s@ == d,
                    None => r is None,
                }
            }),
    {
        loop
            invariant
                drain(self.pending_view(), self.found_view()) == drain(
                    old(self).pending_view(),
                    old(self).found_view(),
                ),
            decreases self.pending@.len(),
        {
            let ghost before = self.pending_view();
            let ghost found_before = self.found_view();
            match self.pending.pop() {
                None => {
                    self.current = None;
                    assert(before.len() == 0);
                    return None;
                },
                Some(item) => {
                    assert(self.pending_view() =~= before.drop_last());
                    match item {
                        WalkItem::Found(d) => {
                            self.found.push(d);
                            assert(self.found_view() =~= found_before.push(d@));
                        },
                        WalkItem::Dir(p, n) => {
                            let out = p.clone();
                            self.current = Some((p, n));
                            return Some(out);
                        },
                    }
                },
            }
        }
    }

    /// Takes the listing of the directory handed out last: its steps go on
    /// top of the stack so that they come off in listing order. Without a
    /// directory handed out, nothing changes.
    pub fn visit(&mut self, entries: Vec<ListedEntry>)
        ensures
            match old(self).current_view() {
                Some((d, n)) => final(self).pending_view() == old(self).pending_view() + listing_steps(
                    entries@,
                    d,
                    n,
                ).reverse(),
                None => final(self).pending_view() == old(self).pending_view(),
            },
            final(self).found_view() == old(self).found_view(),
            final(self).current_view() is None,
    {
        let (dir, depth) = match self.current.take() {
            Some(c) => c,
            None => return,
        };
        let ghost base = self.pending_view();
        if depth == 0 {
            assert(listing_steps(entries@, dir@, depth).reverse() =~= Seq::<WalkStep>::empty());
            assert(base + Seq::<WalkStep>::empty() =~= base);
            return;
        }
        let exe = chars_of(GAME_EXECUTABLE);
        let mut i: usize = entries.len();
        loop
            invariant
                i <= entries@.len(),
                exe@ == GAME_EXECUTABLE@,
                self.pending_view() == base + listing_steps(entries@.skip(i as int), dir@, depth).reverse(),
                self.found_view() == old(self).found_view(),
                self.current_view() is None,
                base == old(self).pending_view(),
                old(self).current_view() == Some((dir@, depth)),
                depth > 0,
            decreases i,
        {
            if i == 0 {
                assert(entries@.skip(0) =~= entries@);
                return;
            }
            i = i - 1;
            let e = &entries[i];
            let ghost tail = listing_steps(entries@.skip(i + 1), dir@, depth);
            assert(entries@.skip(i as int).drop_first() =~= entries@.skip(i + 1));
            let ghost old_pending = self.pending_view();
            match e.kind {
                EntryKind::File => {
                    if chars_eq(&chars_of(e.name.as_str()), &exe) {
                        self.pending.push(WalkItem::Found(dir.clone()));
                        assert(self.pending_view() =~= old_pending.push(WalkStep::Found(dir@)));
                        assert((seq![WalkStep::Found(dir@)] + tail).reverse() =~= tail.reverse().push(
                            WalkStep::Found(dir@),
                        ));
                    } else {
                        assert(Seq::<WalkStep>::empty() + tail =~= tail);
                    }
                },
                EntryKind::Dir => {
                    if depth > 1 {
                        self.pending.push(WalkItem::Dir(e.path.clone(), depth - 1));
                        let ghost st = WalkStep::Dir(e.path@, (depth - 1) as u32);
                        assert(self.pending_view() =~= old_pending.push(st));
                        assert((seq![st] + tail).reverse() =~= tail.reverse().push(st));
                    } else {
                        assert(Seq::<WalkStep>::empty() + tail =~= tail);
                    }
                },
                EntryKind::Other => {
                    assert(Seq::<WalkStep>::empty() + tail =~= tail);
                },
            }
        }
    }

    /// The directories found so far, in the order they were found.
    pub fn found(&self) -> (r: Vec<String>)
        ensures
            strings_view(r@) == self.found_view(),
    {
        let mut out: Vec<String> = Vec::new();
        let mut i: usize = 0;
        while i < self.found.len()
            invariant
                i <= self.found@.len(),
                out@.len() == i,
                forall|j: int| 0 <= j < i ==> #[trigger] out@[j]@ == self.found@[j]@,
            decreases self.found@.len() - i,
        {
            out.push(self.found[i].clone());
            i = i + 1;
        }
        assert(strings_view(out@) =~= strings_view(self.found@));
        out
    }
}


/// What the recursive walk of `dir` with `depth` levels left finds, each
/// directory listed as `tree` gives it: nothing without levels; otherwise,
/// entry by entry in listing order, `dir` itself for a file named like the
/// game's executable and what the walk of a subdirectory finds one level
/// down.
pub open spec fn walk_finds(
    tree: spec_fn(Seq<char>) -> Seq<ListedEntry>,
    dir: Seq<char>,
    depth: nat,
) -> Seq<Seq<char>>
    decreases depth, 1nat, 0nat,
{
    if depth == 0 {
        Seq::empty()
    } else {
        listing_finds(tree, tree(dir), dir, depth)
    }
}

/// What the recursive walk finds in the entries `es` of `dir`.
pub open spec fn listing_finds(
    tree: spec_fn(Seq<char>) -> Seq<ListedEntry>,
    es: Seq<ListedEntry>,
    dir: Seq<char>,
    depth: nat,
) -> Seq<Seq<char>>
    decreases depth, 0nat, es.len(),
{
    if es.len() == 0 || depth == 0 {
        Seq::empty()
    } else {
        let e = es[0];
        let here: Seq<Seq<char>> = match e.kind {
            EntryKind::File => if e.name@ == GAME_EXECUTABLE@ {
                seq![dir]
            } else {
                Seq::empty()
            },
            EntryKind::Dir => walk_finds(tree, e.path@, (depth - 1) as nat),
            EntryKind::Other => Seq::empty(),
        };
        here + listing_finds(tree, es.drop_first(), dir, depth)
    }
}

/// What a pending step still finds.
pub open spec fn step_finds(tree: spec_fn(Seq<char>) -> Seq<ListedEntry>, s: WalkStep) -> Seq<Seq<char>> {
    match s {
        WalkStep::Found(d) => seq![d],
        WalkStep::Dir(p, n) => walk_finds(tree, p, n as nat),
    }
}

/// What a stack of pending steps still finds, top (last) first.
pub open spec fn pending_finds(
    tree: spec_fn(Seq<char>) -> Seq<ListedEntry>,
    pending: Seq<WalkStep>,
) -> Seq<Seq<char>>
    decreases pending.len(),
{
    if pending.len() == 0 {
        Seq::empty()
    } else {
        step_finds(tree, pending.last()) + pending_finds(tree, pending.drop_last())
    }
}

/// What a walk in the state (`found`, `current`, `pending`) ends up with when
/// every directory is listed as `tree` gives it.
pub open spec fn walk_outcome(
    tree: spec_fn(Seq<char>) -> Seq<ListedEntry>,
    found: Seq<Seq<char>>,
    current: Option<(Seq<char>, u32)>,
    pending: Seq<WalkStep>,
) -> Seq<Seq<char>> {
    let cur: Seq<Seq<char>> = match current {
        Some((d, n)) => walk_finds(tree, d, n as nat),
        None => Seq::empty(),
    };
    found + cur + pending_finds(tree, pending)
}

/// A new walk of `root` ends up with what the recursive walk of `root`
/// finds.
pub proof fn lemma_walk_outcome_at_start(
    tree: spec_fn(Seq<char>) -> Seq<ListedEntry>,
    root: Seq<char>,
    max_depth: u32,
)
    ensures
        walk_outcome(
            tree,
            Seq::empty(),
            None,
            if max_depth > 0 {
                seq![WalkStep::Dir(root, max_depth)]
            } else {
                Seq::empty()
            },
        ) == walk_finds(tree, root, max_depth as nat),
{
    let pending: Seq<WalkStep> = if max_depth > 0 {
        seq![WalkStep::Dir(root, max_depth)]
    } else {
        Seq::empty()
    };
    let e: Seq<Seq<char>> = Seq::empty();
    if max_depth > 0 {
        assert(pending.drop_last() =~= Seq::<WalkStep>::empty());
        assert(pending_finds(tree, pending.drop_last()) =~= e);
        assert(pending_finds(tree, pending) =~= walk_finds(tree, root, max_depth as nat));
    } else {
        assert(pending_finds(tree, pending) =~= e);
        assert(walk_finds(tree, root, max_depth as nat) =~= e);
    }
    assert(walk_outcome(tree, e, None, pending) =~= e + e + pending_finds(tree, pending));
    assert(e + e + pending_finds(tree, pending) =~= pending_finds(tree, pending));
}

/// Taking steps off the stack (`next_dir`) does not change what the walk
/// ends up with; when no directory comes up, the stack is empty.
pub proof fn lemma_next_dir_keeps_outcome(
    tree: spec_fn(Seq<char>) -> Seq<ListedEntry>,
    pending: Seq<WalkStep>,
    found: Seq<Seq<char>>,
)
    ensures
        ({
            let (p, f, c) = drain(pending, found);
            &&& walk_outcome(tree, f, c, p) == walk_outcome(tree, found, None, pending)
            &&& c is None ==> p.len() == 0
        }),
    decreases pending.len(),
{
    if pending.len() > 0 {
        match pending.last() {
            WalkStep::Found(d) => {
                lemma_next_dir_keeps_outcome(tree, pending.drop_last(), found.push(d));
                assert(walk_outcome(tree, found.push(d), None, pending.drop_last()) =~= walk_outcome(
                    tree,
                    found,
                    None,
                    pending,
                ));
            },
            WalkStep::Dir(p, n) => {
                assert(walk_outcome(tree, found, Some((p, n)), pending.drop_last()) =~= walk_outcome(
                    tree,
                    found,
                    None,
                    pending,
                ));
            },
        }
    }
}

/// The steps of a listing, taken in listing order, find what the recursive
/// walk finds in that listing.
proof fn lemma_listing_steps_find(
    tree: spec_fn(Seq<char>) -> Seq<ListedEntry>,
    es: Seq<ListedEntry>,
    dir: Seq<char>,
    depth: u32,
)
    ensures
        pending_finds(tree, listing_steps(es, dir, depth).reverse()) == listing_finds(tree, es, dir, depth as nat),
    decreases es.len(),
{
    if es.len() > 0 && depth > 0 {
        lemma_listing_steps_find(tree, es.drop_first(), dir, depth);
        let e = es[0];
        let here: Seq<WalkStep> = match e.kind {
            EntryKind::File => if e.name@ == GAME_EXECUTABLE@ {
                seq![WalkStep::Found(dir)]
            } else {
                Seq::empty()
            },
            EntryKind::Dir => if depth > 1 {
                seq![WalkStep::Dir(e.path@, (depth - 1) as u32)]
            } else {
                Seq::empty()
            },
            EntryKind::Other => Seq::empty(),
        };
        let rest = listing_steps(es.drop_first(), dir, depth);
        assert(listing_steps(es, dir, depth) == here + rest);
        assert((here + rest).reverse() =~= rest.reverse() + here.reverse());
        lemma_pending_finds_append(tree, rest.reverse(), here.reverse());
        let hf: Seq<Seq<char>> = match e.kind {
            EntryKind::File => if e.name@ == GAME_EXECUTABLE@ {
                seq![dir]
            } else {
                Seq::empty()
            },
            EntryKind::Dir => walk_finds(tree, e.path@, (depth - 1) as nat),
            EntryKind::Other => Seq::empty(),
        };
        let none: Seq<Seq<char>> = Seq::empty();
        if here.len() == 1 {
            assert(here.reverse() =~= here);
            assert(here.drop_last() =~= Seq::<WalkStep>::empty());
            assert(pending_finds(tree, here.drop_last()) =~= none);
            assert(pending_finds(tree, here) =~= step_finds(tree, here[0]) + none);
            assert(pending_finds(tree, here.reverse()) =~= hf);
        } else {
            assert(here.reverse() =~= Seq::<WalkStep>::empty());
            assert(pending_finds(tree, here.reverse()) =~= none);
            if e.kind == EntryKind::Dir {
                assert(depth == 1);
                assert(walk_finds(tree, e.path@, 0) =~= none);
            }
            assert(hf =~= none);
        }
        assert(listing_finds(tree, es, dir, depth as nat) == hf + listing_finds(tree, es.drop_first(), dir, depth as nat));
        assert(pending_finds(tree, here.reverse()) + pending_finds(tree, rest.reverse()) =~= listing_finds(
            tree,
            es,
            dir,
            depth as nat,
        ));
    } else {
        assert(listing_steps(es, dir, depth).reverse() =~= Seq::<WalkStep>::empty());
    }
}

/// Stacking steps on top of others: the new ones are found first.
proof fn lemma_pending_finds_append(
    tree: spec_fn(Seq<char>) -> Seq<ListedEntry>,
    a: Seq<WalkStep>,
    b: Seq<WalkStep>,
)
    ensures
        pending_finds(tree, a + b) == pending_finds(tree, b) + pending_finds(tree, a),
    decreases b.len(),
{
    if b.len() == 0 {
        assert(a + b =~= a);
        assert(pending_finds(tree, b) + pending_finds(tree, a) =~= pending_finds(tree, a));
    } else {
        lemma_pending_finds_append(tree, a, b.drop_last());
        assert((a + b).drop_last() =~= a + b.drop_last());
        assert((a + b).last() == b.last());
        assert(pending_finds(tree, a + b) =~= pending_finds(tree, b) + pending_finds(tree, a));
    }
}

/// Visiting the directory handed out with the listing `tree` gives for it
/// does not change what the walk ends up with.
pub proof fn lemma_visit_keeps_outcome(
    tree: spec_fn(Seq<char>) -> Seq<ListedEntry>,
    found: Seq<Seq<char>>,
    pending: Seq<WalkStep>,
    dir: Seq<char>,
    depth: u32,
)
    ensures
        walk_outcome(tree, found, None, pending + listing_steps(tree(dir), dir, depth).reverse())
            == walk_outcome(tree, found, Some((dir, depth)), pending),
{
    let steps = listing_steps(tree(dir), dir, depth).reverse();
    lemma_listing_steps_find(tree, tree(dir), dir, depth);
    lemma_pending_finds_append(tree, pending, steps);
    assert(walk_outcome(tree, found, None, pending + steps) =~= walk_outcome(
        tree,
        found,
        Some((dir, depth)),
        pending,
    ));
}

/// The subdirectories that listing a directory `depth` levels below the
/// root pushes, in listing order, each one level deeper; none once
/// `max_depth` is reached.
pub open spec fn pushed_dirs(entries: Seq<ListedEntry>, depth: usize, max_depth: usize) -> Seq<
    (Seq<char>, usize),
>
    decreases entries.len(),
{
    if entries.len() == 0 {
        Seq::empty()
    } else {
        let e = entries.last();
        let rest = pushed_dirs(entries.drop_last(), depth, max_depth);
        if e.kind == EntryKind::Dir && depth < max_depth {
            rest.push((e.path@, (depth + 1) as usize))
        } else {
            rest
        }
    }
}

/// The entries of a listing that are not directories and are named like
/// the game's executable, in listing order.
pub open spec fn listed_executables(entries: Seq<ListedEntry>) -> Seq<Seq<char>>
    decreases entries.len(),
{
    if entries.len() == 0 {
        Seq::empty()
    } else {
        let e = entries.last();
        let rest = listed_executables(entries.drop_last());
        if e.kind != EntryKind::Dir && e.name@ == GAME_EXECUTABLE@ {
            rest.push(e.path@)
        } else {
            rest
        }
    }
}

/// A depth-limited search from a root for files named like the game's
/// executable: directories come off a stack, the last one pushed first, and
/// within a listing the executables are tried in listing order. Directories
/// deeper than the limit are never pushed, so none is listed.
pub struct ExeSearch {
    stack: Vec<(String, usize)>,
    max_depth: usize,
    current: Option<usize>,
}

impl ExeSearch {
    /// The directories still to list, with their depth below the root (the
    /// top of the stack last).
    pub closed spec fn stack_view(&self) -> Seq<(Seq<char>, usize)> {
        self.stack@.map_values(|e: (String, usize)| (e.0@, e.1))
    }

    pub closed spec fn max_depth_view(&self) -> usize {
        self.max_depth
    }

    /// The depth of the directory handed out and not yet visited.
    pub closed spec fn current_view(&self) -> Option<usize> {
        self.current
    }

    /// A search of `root`, listing directories down to `max_depth` levels
    /// below it.
    pub fn new(root: String, max_depth: usize) -> (r: ExeSearch)
        ensures
            r.stack_view() == seq![(root@, 0usize)],
            r.max_depth_view() == max_depth,
            r.current_view() is None,
    {
        let mut stack: Vec<(String, usize)> = Vec::new();
        stack.push((root, 0));
        let r = ExeSearch { stack, max_depth, current: None };
        assert(r.stack_view() =~= seq![(root@, 0usize)]);
        r
    }

    /// The next directory to list (the top of the stack), or `None` when
    /// the search is over.
    pub fn next_dir(&mut self) -> (r: Option<String>)
        ensures
            final(self).max_depth_view() == old(self).max_depth_view(),
            old(self).stack_view().len() == 0 ==> r is None && final(self).current_view() is None
                && final(self).stack_view() == old(self).stack_view(),
            old(self).stack_view().len() > 0 ==> {
                let top = old(self).stack_view().last();
                &&& r matches Some(d) && d@ == top.0
                &&& final(self).current_view() == Some(top.1)
                &&& final(self).stack_view() == old(self).stack_view().drop_last()
            },
    {
        let ghost before = self.stack_view();
        match self.stack.pop() {
            None => {
                self.current = None;
                None
            },
            Some((dir, depth)) => {
                assert(self.stack_view() =~= before.drop_last());
                self.current = Some(depth);
                Some(dir)
            },
        }
    }

    /// Takes the listing of the directory handed out last: its
    /// subdirectories go on the stack, and the executables found in it are
    /// returned to be compared with the one looked for. Without a directory
    /// handed out, nothing changes and nothing is returned.
    pub fn visit(&mut self, entries: Vec<ListedEntry>) -> (r: Vec<String>)
        ensures
            final(self).max_depth_view() == old(self).max_depth_view(),
            final(self).current_view() is None,
            match old(self).current_view() {
                Some(n) => final(self).stack_view() == old(self).stack_view() + pushed_dirs(
                    entries@,
                    n,
                    old(self).max_depth_view(),
                ) && strings_view(r@) == listed_executables(entries@),
                None => final(self).stack_view() == old(self).stack_view() && r@.len() == 0,
            },
    {
        let mut out: Vec<String> = Vec::new();
        let depth = match self.current.take() {
            Some(n) => n,
            None => return out,
        };
        let ghost base = self.stack_view();
        let exe = chars_of(GAME_EXECUTABLE);
        let mut i: usize = 0;
        while i < entries.len()
            invariant
                i <= entries@.len(),
                exe@ == GAME_EXECUTABLE@,
                self.max_depth == old(self).max_depth,
                self.current is None,
                old(self).current_view() == Some(depth),
                base == old(self).stack_view(),
                self.stack_view() == base + pushed_dirs(entries@.take(i as int), depth, self.max_depth),
                strings_view(out@) == listed_executables(entries@.take(i as int)),
            decreases entries@.len() - i,
        {
            let e = &entries[i];
            assert(entries@.take(i + 1).drop_last() =~= entries@.take(i as int));
            assert(entries@.take(i + 1).last() == entries@[i as int]);
            let ghost old_stack = self.stack_view();
            let ghost old_out = strings_view(out@);
            match e.kind {
                EntryKind::Dir => {
                    if depth < self.max_depth {
                        self.stack.push((e.path.clone(), depth + 1));
                        assert(self.stack_view() =~= old_stack.push((e.path@, (depth + 1) as usize)));
                    }
                },
                _ => {
                    if chars_eq(&chars_of(e.name.as_str()), &exe) {
                        out.push(e.path.clone());
                        assert(strings_view(out@) =~= old_out.push(e.path@));
                    }
                },
            }
            i = i + 1;
        }
        assert(entries@.take(entries@.len() as int) =~= entries@);
        out
    }
}

} // verus!
