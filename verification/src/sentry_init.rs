//! Whether error reporting is on: it is when a non-blank DSN is configured.
use vstd::prelude::*;

use crate::text::{chars_of, string_of, trim, trim_seq};

verus! {

/// The DSN to report with: the configured value trimmed, unless that is
/// empty.
pub fn configured_dsn(raw: &Option<String>) -> (r: Option<String>)
    ensures
        match raw {
            Some(v) => if trim_seq(v@).len() > 0 {
                r matches Some(d) && d@ == trim_seq(v@)
            } else {
                r is None
            },
            None => r is None,
        },
{
    match raw {
        Some(v) => {
            let t = trim(&chars_of(v.as_str()));
            if t.len() > 0 {
                Some(string_of(&t))
            } else {
                None
            }
        },
        None => None,
    }
}

/// The DSN to report with: the one built into a release build when it is
/// not blank, else the runtime `SENTRY_DSN`, trimmed; `None` when both are
/// missing or blank.
pub fn sentry_dsn(baked: Option<String>, runtime: Option<String>) -> (r: Option<String>)
    ensures
        crate::text::opt_view(r) == crate::modio_env::first_present(
            crate::text::opt_view(baked),
            crate::text::opt_view(runtime),
        ),
{
    match crate::modio_env::non_empty(baked) {
        Some(v) => Some(v),
        None => crate::modio_env::non_empty(runtime),
    }
}

/// Reporting is on exactly when the DSN built in, else the runtime one, is
/// not blank. (A build embeds a DSN only when it is not blank.)
pub proof fn lemma_reporting_enabled(baked: Option<Seq<char>>, runtime: Option<Seq<char>>)
    requires
        baked matches Some(b) ==> trim_seq(b).len() > 0,
    ensures
        crate::modio_env::first_present(baked, runtime) is Some <==> match (if baked is Some {
            baked
        } else {
            runtime
        }) {
            Some(v) => trim_seq(v).len() > 0,
            None => false,
        },
{
}

/// Reporting is enabled exactly when a DSN was configured.
pub fn is_enabled(dsn: &Option<String>) -> (r: bool)
    ensures
        r == dsn.is_some(),
{
    dsn.is_some()
}

/// The environment reported with each event.
pub fn environment_name(debug_build: bool) -> (r: &'static str)
    ensures
        r@ == if debug_build {
            "development"@
        } else {
            "production"@
        },
{
    if debug_build {
        "development"
    } else {
        "production"
    }
}

} // verus!
