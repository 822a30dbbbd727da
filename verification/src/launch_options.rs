//! Command-line flags the app accepts at startup.
use vstd::prelude::*;

use crate::text::{chars_eq, chars_of, opt_view, string_of, trim, trim_seq};

verus! {

/// `-profile <name>` / `--profile <name>` and `-launchgame` / `--launchgame`.
pub struct LaunchOptions {
    pub profile_name: Option<String>,
    pub launch_game: bool,
}

pub open spec fn is_profile_flag(a: Seq<char>) -> bool {
    a == "-profile"@ || a == "--profile"@
}

pub open spec fn is_launch_flag(a: Seq<char>) -> bool {
    a == "-launchgame"@ || a == "--launchgame"@
}

/// The options after reading `args` from the front, starting from `acc`. A
/// profile flag takes the next argument as its value (trimmed; an empty value
/// is ignored); unknown arguments are skipped.
pub open spec fn launch_options_from(args: Seq<Seq<char>>, acc: (Option<Seq<char>>, bool)) -> (
    Option<Seq<char>>,
    bool,
)
    decreases args.len(),
{
    if args.len() == 0 {
        acc
    } else if is_profile_flag(args[0]) {
        if args.len() < 2 {
            acc
        } else {
            let value = trim_seq(args[1]);
            let next = if value.len() > 0 {
                (Some(value), acc.1)
            } else {
                acc
            };
            launch_options_from(args.subrange(2, args.len() as int), next)
        }
    } else if is_launch_flag(args[0]) {
        launch_options_from(args.drop_first(), (acc.0, true))
    } else {
        launch_options_from(args.drop_first(), acc)
    }
}

pub open spec fn args_view(args: Seq<String>) -> Seq<Seq<char>> {
    args.map_values(|a: String| a@)
}

/// Reads the startup flags from the arguments that follow the program name.
pub fn parse_launch_options(args: Vec<String>) -> (r: LaunchOptions)
    ensures
        (opt_view(r.profile_name), r.launch_game) == launch_options_from(
            args_view(args@),
            (None, false),
        ),
{
    let ghost all = args_view(args@);
    let mut profile: Option<Vec<char>> = None;
    let mut launch = false;
    let p1 = chars_of("-profile");
    let p2 = chars_of("--profile");
    let l1 = chars_of("-launchgame");
    let l2 = chars_of("--launchgame");
    let mut i: usize = 0;
    assert(all.subrange(0, all.len() as int) =~= all);
    while i < args.len()
        invariant
            i <= args.len(),
            all == args_view(args@),
            p1@ == "-profile"@,
            p2@ == "--profile"@,
            l1@ == "-launchgame"@,
            l2@ == "--launchgame"@,
            launch_options_from(all, (None, false)) == launch_options_from(
                all.subrange(i as int, all.len() as int),
                (
                    match profile {
                        Some(p) => Some(p@),
                        None => None,
                    },
                    launch,
                ),
            ),
        decreases args.len() - i,
    {
        let ghost rest = all.subrange(i as int, all.len() as int);
        let a = chars_of(args[i].as_str());
        assert(rest[0] == a@);
        if chars_eq(&a, &p1) || chars_eq(&a, &p2) {
            if i + 1 < args.len() {
                let value = trim(&chars_of(args[i + 1].as_str()));
                assert(rest[1] == args@[i + 1]@);
                if value.len() > 0 {
                    profile = Some(value);
                }
                assert(rest.subrange(2, rest.len() as int) =~= all.subrange(
                    i + 2,
                    all.len() as int,
                ));
                i = i + 2;
            } else {
                i = args.len();
                assert(all.subrange(i as int, all.len() as int) =~= Seq::<Seq<char>>::empty());
            }
        } else {
            if chars_eq(&a, &l1) || chars_eq(&a, &l2) {
                launch = true;
            }
            assert(rest.drop_first() =~= all.subrange(i + 1, all.len() as int));
            i = i + 1;
        }
    }
    assert(all.subrange(i as int, all.len() as int) =~= Seq::<Seq<char>>::empty());
    let profile_name = match profile {
        Some(p) => Some(string_of(&p)),
        None => None,
    };
    LaunchOptions { profile_name, launch_game: launch }
}

} // verus!
