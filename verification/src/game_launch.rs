//! Launching the game: through Steam where it can, else through Wine or the
//! executable itself; what each attempt runs is decided here.
use vstd::prelude::*;

use crate::game_path::GAME_EXECUTABLE;
use crate::paths::{join_path, join_path_spec};
use crate::prefix_search::Platform;
use crate::text::{append_all, chars_of, own, starts_with, starts_with_seq, string_of};

verus! {

/// Zeepkist's Steam app id.
pub const STEAM_APP_ID: &'static str = "1440670";

pub const ALREADY_RUNNING_ERROR: &'static str = "Zeepkist is already running.";

pub const STEAM_NOT_FOUND_ERROR: &'static str =
    "Could not find Steam. Install Steam or launch Zeepkist manually.";

pub const NO_WINE_PREFIX_ERROR: &'static str =
    "Could not find a Wine prefix for your game directory. Launch Zeepkist from Steam or CrossOver.";

/// A launch is refused while the game runs.
pub fn launch_precheck(game_running: bool) -> (r: Result<(), String>)
    ensures
        game_running ==> (r matches Err(m) && m@ == ALREADY_RUNNING_ERROR@),
        !game_running ==> r is Ok,
{
    if game_running {
        Err(own(ALREADY_RUNNING_ERROR))
    } else {
        Ok(())
    }
}

/// The arguments that make Steam start Zeepkist.
pub fn steam_launch_args() -> (r: Vec<String>)
    ensures
        r@.len() == 2,
        r@[0]@ == "-applaunch"@,
        r@[1]@ == STEAM_APP_ID@,
{
    let mut v: Vec<String> = Vec::new();
    v.push(own("-applaunch"));
    v.push(own(STEAM_APP_ID));
    v
}

/// Where Steam's launcher may live under a Linux home directory, in the
/// order they are tried.
pub fn linux_steam_candidates(home: &str) -> (r: Vec<String>)
    ensures
        r@.len() == 3,
        r@[0]@ == join_path_spec(home@, ".local/share/Steam/ubuntu12_32/steam"@),
        r@[1]@ == join_path_spec(home@, ".steam/steam/ubuntu12_32/steam"@),
        r@[2]@ == join_path_spec(home@, ".steam/debian-installation/ubuntu12_32/steam"@),
{
    let mut v: Vec<String> = Vec::new();
    v.push(join_path(home, ".local/share/Steam/ubuntu12_32/steam"));
    v.push(join_path(home, ".steam/steam/ubuntu12_32/steam"));
    v.push(join_path(home, ".steam/debian-installation/ubuntu12_32/steam"));
    v
}

/// The game's executable inside its directory.
pub fn game_executable_path(game_dir: &str) -> (r: String)
    ensures
        r@ == join_path_spec(game_dir@, GAME_EXECUTABLE@),
{
    join_path(game_dir, GAME_EXECUTABLE)
}

/// The error for a game directory without the executable.
pub fn missing_executable_error(game_dir: &str) -> (r: String)
    ensures
        r@ == "Could not find "@ + GAME_EXECUTABLE@ + " in "@ + game_dir@,
{
    let mut m = chars_of("Could not find ");
    append_all(&mut m, &chars_of(GAME_EXECUTABLE));
    append_all(&mut m, &chars_of(" in "));
    append_all(&mut m, &chars_of(game_dir));
    string_of(&m)
}

/// How Wine starts the game.
pub enum WineLaunch {
    /// Through CrossOver, in the named bottle.
    Bottle(String),
    /// Through `wine` with `WINEPREFIX` set.
    Prefix,
}

/// CrossOver (on macOS) starts the game in its bottle, unless the bottle is
/// one of Steam's own (`Steam app ...`); otherwise Wine runs the executable
/// with the prefix set.
pub fn wine_launch_method(bottle_name: &Option<String>, crossover: bool) -> (r: WineLaunch)
    ensures
        match r {
            WineLaunch::Bottle(b) => crossover && (bottle_name matches Some(n) && b@ == n@
                && !starts_with_seq(n@, "Steam app"@)),
            WineLaunch::Prefix => !crossover || match bottle_name {
                Some(n) => starts_with_seq(n@, "Steam app"@),
                None => true,
            },
        },
{
    if crossover {
        match bottle_name {
            Some(n) => {
                if !starts_with(&chars_of(n.as_str()), &chars_of("Steam app")) {
                    return WineLaunch::Bottle(own(n.as_str()));
                }
            },
            None => {},
        }
    }
    WineLaunch::Prefix
}

/// The arguments CrossOver gets to start the game in a bottle.
pub fn crossover_launch_args(bottle: &str) -> (r: Vec<String>)
    ensures
        r@.len() == 4,
        r@[0]@ == "--bottle"@,
        r@[1]@ == bottle@,
        r@[2]@ == "--cx-app"@,
        r@[3]@ == GAME_EXECUTABLE@,
{
    let mut v: Vec<String> = Vec::new();
    v.push(own("--bottle"));
    v.push(own(bottle));
    v.push(own("--cx-app"));
    v.push(own(GAME_EXECUTABLE));
    v
}

/// One way of starting the game.
#[derive(Clone, Copy, Debug, PartialEq, Eq, Structural)]
pub enum LaunchMethod {
    /// `steam -applaunch` with Zeepkist's app id.
    Steam,
    /// The executable in the game directory, run directly.
    DirectExe,
    /// The executable run by Wine (or CrossOver) in the game's prefix.
    Wine,
}

/// The ways of starting the game on a platform, in the order they are
/// tried: the first that works is used, and when none does the last one's
/// error is reported. Windows falls back from Steam to the executable,
/// Linux from Steam to Wine; macOS uses Wine (CrossOver) only.
pub fn launch_methods(platform: Platform) -> (r: Vec<LaunchMethod>)
    ensures
        r@ == (match platform {
            Platform::Windows => seq![LaunchMethod::Steam, LaunchMethod::DirectExe],
            Platform::Linux => seq![LaunchMethod::Steam, LaunchMethod::Wine],
            Platform::MacOs => seq![LaunchMethod::Wine],
            Platform::Other => Seq::<LaunchMethod>::empty(),
        }),
{
    let mut v: Vec<LaunchMethod> = Vec::new();
    match platform {
        Platform::Windows => {
            v.push(LaunchMethod::Steam);
            v.push(LaunchMethod::DirectExe);
        },
        Platform::Linux => {
            v.push(LaunchMethod::Steam);
            v.push(LaunchMethod::Wine);
        },
        Platform::MacOs => {
            v.push(LaunchMethod::Wine);
        },
        Platform::Other => {},
    }
    assert(v@ =~= (match platform {
        Platform::Windows => seq![LaunchMethod::Steam, LaunchMethod::DirectExe],
        Platform::Linux => seq![LaunchMethod::Steam, LaunchMethod::Wine],
        Platform::MacOs => seq![LaunchMethod::Wine],
        Platform::Other => Seq::<LaunchMethod>::empty(),
    }));
    v
}

} // verus!
