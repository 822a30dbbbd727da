//! Log settings, and which log records are forwarded to error reporting.
use vstd::prelude::*;

use crate::text::{chars_of, own, starts_with_seq, string_of, strip_prefix};

verus! {

pub const DEFAULT_LOG_FILTER: &'static str = "info,modkistmkii_lib=info";

pub const LOG_BASENAME: &'static str = "modkist";

pub const LOG_SUBDIR: &'static str = "logs";

pub const LOGGER_ERROR_BASENAME: &'static str = "flexi_logger-errors.log";

/// Five MiB.
pub const MAX_LOG_FILE_BYTES: u64 = 5242880;

pub const MAX_LOG_FILES: usize = 5;

pub const CRATE_TARGET_PREFIX: &'static str = "modkistmkii_lib::";

/// The level of a log record.
#[derive(Clone, Copy, Debug, PartialEq, Eq, Structural)]
pub enum LogLevel {
    Error,
    Warn,
    Info,
    Debug,
    Trace,
}

/// The level of a reported event.
#[derive(Clone, Copy, Debug, PartialEq, Eq, Structural)]
pub enum ReportLevel {
    Error,
    Warning,
}

/// Errors and warnings are reported; every other record is only logged.
pub fn report_level_for(level: LogLevel) -> (r: Option<ReportLevel>)
    ensures
        r == match level {
            LogLevel::Error => Some(ReportLevel::Error),
            LogLevel::Warn => Some(ReportLevel::Warning),
            _ => None,
        },
{
    match level {
        LogLevel::Error => Some(ReportLevel::Error),
        LogLevel::Warn => Some(ReportLevel::Warning),
        _ => None,
    }
}

/// The target tag of a reported record: its target within this crate,
/// with the crate's prefix removed; none for other targets.
pub fn report_target_tag(target: &str) -> (r: Option<String>)
    ensures
        match r {
            Some(t) => starts_with_seq(target@, CRATE_TARGET_PREFIX@) && t@ == target@.skip(
                CRATE_TARGET_PREFIX@.len() as int,
            ),
            None => !starts_with_seq(target@, CRATE_TARGET_PREFIX@),
        },
{
    match strip_prefix(&chars_of(target), &chars_of(CRATE_TARGET_PREFIX)) {
        Some(rest) => Some(string_of(&rest)),
        None => None,
    }
}

/// The filter: the `RUST_LOG` value when set, else the default.
pub fn log_filter(configured: &Option<String>) -> (r: String)
    ensures
        r@ == match configured {
            Some(v) => v@,
            None => DEFAULT_LOG_FILTER@,
        },
{
    match configured {
        Some(v) => own(v.as_str()),
        None => own(DEFAULT_LOG_FILTER),
    }
}

} // verus!
