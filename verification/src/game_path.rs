//! The configured game directory and what is reported about it.
use vstd::prelude::*;

use crate::text::{chars_of, opt_view, own, string_of, trim, trim_seq};

verus! {

pub const GAME_EXECUTABLE: &'static str = "zeepkist.exe";

/// What the settings page shows about the game directory.
pub struct GamePathStatus {
    pub configured: bool,
    pub valid: bool,
    pub path: Option<String>,
    pub message: Option<String>,
}

/// Checks a candidate game directory from what the file system says about it:
/// it must exist, be a directory and hold `zeepkist.exe`.
pub fn validate_directory(exists: bool, is_dir: bool, has_executable: bool) -> (r: Result<
    (),
    String,
>)
    ensures
        r is Ok <==> exists && is_dir && has_executable,
        !exists ==> (r matches Err(e) && e@ == "This directory does not exist."@),
        exists && !is_dir ==> (r matches Err(e) && e@ == "The path must be a directory."@),
        exists && is_dir && !has_executable ==> (r matches Err(e) && e@
            == "Could not find zeepkist.exe in this directory."@),
{
    if !exists {
        return Err(own("This directory does not exist."));
    }
    if !is_dir {
        return Err(own("The path must be a directory."));
    }
    if !has_executable {
        return Err(own("Could not find zeepkist.exe in this directory."));
    }
    Ok(())
}

/// The status for a stored path (or the error reading it) and the outcome of
/// validating that path.
pub fn build_status(stored: Result<Option<String>, String>, validation: Result<(), String>) -> (r:
    GamePathStatus)
    ensures
        match stored {
            Ok(Some(path)) => {
                &&& r.configured
                &&& r.valid == validation is Ok
                &&& opt_view(r.path) == Some(path@)
                &&& match validation {
                    Ok(()) => r.message is None,
                    Err(m) => opt_view(r.message) == Some(m@),
                }
            },
            Ok(None) => {
                &&& !r.configured
                &&& !r.valid
                &&& r.path is None
                &&& opt_view(r.message) == Some("Select your Zeepkist game directory."@)
            },
            Err(m) => {
                &&& !r.configured
                &&& !r.valid
                &&& r.path is None
                &&& opt_view(r.message) == Some(m@)
            },
        },
{
    match stored {
        Ok(Some(path)) => match validation {
            Ok(()) => GamePathStatus { configured: true, valid: true, path: Some(path), message: None },
            Err(message) => GamePathStatus {
                configured: true,
                valid: false,
                path: Some(path),
                message: Some(message),
            },
        },
        Ok(None) => GamePathStatus {
            configured: false,
            valid: false,
            path: None,
            message: Some(own("Select your Zeepkist game directory.")),
        },
        Err(message) => GamePathStatus {
            configured: false,
            valid: false,
            path: None,
            message: Some(message),
        },
    }
}

/// The path a user entered, trimmed; a blank entry is refused.
pub fn entered_game_path(path: &str) -> (r: Result<String, String>)
    ensures
        trim_seq(path@).len() == 0 <==> r is Err,
        r matches Ok(p) ==> p@ == trim_seq(path@),
        r matches Err(e) ==> e@ == "Enter your Zeepkist game directory."@,
{
    let t = trim(&chars_of(path));
    if t.len() == 0 {
        return Err(own("Enter your Zeepkist game directory."));
    }
    Ok(string_of(&t))
}

} // verus!
