//! Recognising a running Zeepkist process by name.
use vstd::prelude::*;

use crate::text::{chars_eq, chars_of, lower, lower_seq, own, subvec};

verus! {

pub open spec fn is_path_sep(c: char) -> bool {
    c == '/' || c == '\\'
}

/// Index just past the last `/` or `\` (0 when there is none).
pub open spec fn basename_start(s: Seq<char>) -> int
    decreases s.len(),
{
    if s.len() == 0 {
        0
    } else if is_path_sep(s.last()) {
        s.len() as int
    } else {
        basename_start(s.drop_last())
    }
}

/// The last `/`- or `\`-separated part of a process name or path.
pub open spec fn basename_spec(s: Seq<char>) -> Seq<char> {
    s.skip(basename_start(s))
}

pub open spec fn is_game_process_spec(name: Seq<char>) -> bool {
    let l = lower_seq(basename_spec(name));
    l == "zeepkist"@ || l == "zeepkist.exe"@
}

proof fn lemma_basename_start_bounds(s: Seq<char>)
    ensures
        0 <= basename_start(s) <= s.len(),
    decreases s.len(),
{
    if s.len() > 0 && !is_path_sep(s.last()) {
        lemma_basename_start_bounds(s.drop_last());
    }
}

fn basename(v: &Vec<char>) -> (r: Vec<char>)
    ensures
        r@ == basename_spec(v@),
{
    let mut j: usize = v.len();
    assert(v@.take(j as int) =~= v@);
    while j > 0 && !(v[j - 1] == '/' || v[j - 1] == '\\')
        invariant
            j <= v.len(),
            basename_start(v@) == basename_start(v@.take(j as int)),
        decreases j,
    {
        assert(v@.take(j as int).drop_last() =~= v@.take(j - 1));
        j = j - 1;
    }
    if j == 0 {
        assert(v@.take(0) =~= Seq::<char>::empty());
    }
    subvec(v, j, v.len())
}

/// True when the final path component of a process name is `zeepkist` or
/// `zeepkist.exe`, ignoring ASCII case.
pub fn process_name_is_game(name: &str) -> (r: bool)
    ensures
        r == is_game_process_spec(name@),
{
    let v = chars_of(name);
    let b = basename(&v);
    let l = lower(&b);
    let a = chars_of("zeepkist");
    let e = chars_of("zeepkist.exe");
    chars_eq(&l, &a) || chars_eq(&l, &e)
}

pub open spec fn any_game_process(names: Seq<String>) -> bool {
    exists|i: int| 0 <= i < names.len() && is_game_process_spec(#[trigger] names[i]@)
}

/// True when any of the running processes is the game.
pub fn is_zeepkist_running(process_names: &Vec<String>) -> (r: bool)
    ensures
        r == any_game_process(process_names@),
{
    let mut i: usize = 0;
    while i < process_names.len()
        invariant
            i <= process_names.len(),
            forall|k: int| 0 <= k < i ==> !is_game_process_spec(#[trigger] process_names@[k]@),
        decreases process_names.len() - i,
    {
        if process_name_is_game(process_names[i].as_str()) {
            return true;
        }
        i = i + 1;
    }
    false
}

pub const GAME_RUNNING_MESSAGE: &'static str =
    "Zeepkist is running. Close the game before installing, updating, or removing mods.";

/// Whether the game runs, and the message to show when it does.
pub struct GameRunningStatus {
    pub running: bool,
    pub message: Option<String>,
}

/// Refuses mod changes while the game runs.
pub fn ensure_game_not_running(running: bool) -> (r: Result<(), String>)
    ensures
        running <==> r is Err,
        r matches Err(e) ==> e@ == GAME_RUNNING_MESSAGE@,
{
    if running {
        return Err(own(GAME_RUNNING_MESSAGE));
    }
    Ok(())
}

pub fn build_status(running: bool) -> (r: GameRunningStatus)
    ensures
        r.running == running,
        running ==> (r.message matches Some(m) && m@ == GAME_RUNNING_MESSAGE@),
        !running ==> r.message is None,
{
    GameRunningStatus {
        running,
        message: if running {
            Some(own(GAME_RUNNING_MESSAGE))
        } else {
            None
        },
    }
}

} // verus!
