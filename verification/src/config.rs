//! Configuration values with validated defaults.

use vstd::prelude::*;
use crate::text::{chars_of, string_of, str_eq};

verus! {

/// How detected artifact directories are removed.
#[derive(Debug, Clone, Copy, PartialEq, Eq, Structural)]
pub enum DeleteMode {
    /// Move to the OS recycle bin / trash (default; recoverable).
    Trash,
    /// Permanently delete without recovery option.
    Permanent,
}

impl Default for DeleteMode {
    fn default() -> (m: Self)
        ensures
            m == DeleteMode::Trash,
    {
        DeleteMode::Trash
    }
}

/// Settings that control which artifacts are found and how they are handled.
#[derive(Debug)]
pub struct ScanConfig {
    /// Optional whitelist of language names to scan. `None` means scan all.
    pub enabled_languages: Option<Vec<String>>,
    /// Whether deleted directories go to trash or are permanently removed.
    pub delete_mode: DeleteMode,
    /// Maximum number of results to display in the results panel.
    pub max_results: usize,
    /// When `true`, only show artifacts whose markers are gone.
    pub show_orphaned_only: bool,
}

/// Default cap on displayed results.
pub fn default_max_results() -> (n: usize)
    ensures
        n == 10_000,
{
    10_000
}

impl Default for ScanConfig {
    fn default() -> (c: Self)
        ensures
            c.enabled_languages is None,
            c.delete_mode == DeleteMode::Trash,
            c.max_results == 10_000,
            !c.show_orphaned_only,
    {
        ScanConfig {
            enabled_languages: None,
            delete_mode: DeleteMode::Trash,
            max_results: default_max_results(),
            show_orphaned_only: false,
        }
    }
}

/// Settings that control how tracing events are captured and written.
#[derive(Debug)]
pub struct LoggingConfig {
    /// Minimum tracing level (`error`, `warn`, `info`, `debug`, `trace`).
    pub log_level: String,
    /// Write log events to a rolling file in the data directory.
    pub log_to_file: bool,
    /// Write log events to standard output.
    pub log_to_stdout: bool,
    /// Emit log lines as JSON objects instead of human-readable text.
    pub json_format: bool,
}

/// Default tracing level: `"info"`.
pub fn default_log_level() -> (s: String)
    ensures
        s@ == "info"@,
{
    string_of(&chars_of("info"))
}

/// `true`, the default of flags that are on unless configured otherwise.
pub fn default_true() -> (b: bool)
    ensures
        b,
{
    true
}

impl Default for LoggingConfig {
    fn default() -> (c: Self)
        ensures
            c.log_level@ == "info"@,
            c.log_to_file,
            c.log_to_stdout,
            !c.json_format,
    {
        LoggingConfig {
            log_level: default_log_level(),
            log_to_file: true,
            log_to_stdout: true,
            json_format: false,
        }
    }
}

/// Settings that control where the database is stored.
#[derive(Debug)]
pub struct DatabaseConfig {
    /// Override of the data directory; `None` uses the platform data dir.
    pub data_dir: Option<String>,
}

impl Default for DatabaseConfig {
    fn default() -> (c: Self)
        ensures
            c.data_dir is None,
    {
        DatabaseConfig { data_dir: None }
    }
}

/// The recognised tracing levels.
pub open spec fn is_valid_log_level(s: Seq<char>) -> bool {
    s == "error"@ || s == "warn"@ || s == "info"@ || s == "debug"@ || s == "trace"@
}

/// A log level reset to `"info"` when it is not one of the recognised levels.
pub fn constrained_log_level(level: &String) -> (s: String)
    ensures
        is_valid_log_level(level@) ==> s@ == level@,
        !is_valid_log_level(level@) ==> s@ == "info"@,
{
    let l = level.as_str();
    if str_eq(l, "error") || str_eq(l, "warn") || str_eq(l, "info") || str_eq(l, "debug") || str_eq(l, "trace") {
        level.clone()
    } else {
        default_log_level()
    }
}

/// The result cap raised to at least one.
pub fn constrained_max_results(n: usize) -> (m: usize)
    ensures
        m == if n == 0 { 1 } else { n },
{
    if n == 0 { 1 } else { n }
}

/// Constraining is idempotent and always yields a recognised log level and a
/// positive result cap.
pub proof fn lemma_constraints_settle(level: Seq<char>, n: usize)
    ensures
        is_valid_log_level(if is_valid_log_level(level) { level } else { "info"@ }),
        (if n == 0 { 1usize } else { n }) >= 1,
{
}

} // verus!
