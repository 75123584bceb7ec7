//! The status notices shown after a scan, a cleanup or a settings change,
//! and how long one stays on screen.

use vstd::prelude::*;
use crate::config::DeleteMode;
use crate::database::{decimal_u64, decimal_text};
use crate::error::{join2, join4};
use crate::history::{format_number, grouped};
use crate::utils::{format_size, humansize_binary};
use crate::text::owned;

verus! {

/// Whether a notice reports success or failure.
#[derive(Debug, Clone, Copy, PartialEq, Eq, Structural)]
pub enum NoticeKind {
    Success,
    Error,
}

/// A transient message shown at the top of the window.
#[derive(Debug)]
pub struct StatusNotice {
    pub kind: NoticeKind,
    pub title: String,
    pub message: String,
}

/// How long a notice stays on screen, in milliseconds.
pub const NOTICE_TTL_MILLIS: u128 = 8_000;

/// Whether a notice shown `elapsed_millis` ago has expired.
pub fn notice_is_stale(elapsed_millis: u128) -> (r: bool)
    ensures
        r == (elapsed_millis >= NOTICE_TTL_MILLIS),
{
    elapsed_millis >= NOTICE_TTL_MILLIS
}

fn notice(kind: NoticeKind, title: &str, message: String) -> (n: StatusNotice)
    ensures
        n.kind == kind,
        n.title@ == title@,
        n.message@ == message@,
{
    StatusNotice { kind, title: owned(title), message }
}

/// Text of the notice after a scan that found `count` artifacts of
/// `total_size` bytes in all.
pub open spec fn scan_complete_text(count: nat, total_size: u64) -> Seq<char> {
    "Found "@ + grouped(count) + " artifacts totaling "@ + humansize_binary(total_size) + "."@
}

/// The notice shown when a scan finishes.
pub fn scan_complete_notice(count: usize, total_size: u64) -> (n: StatusNotice)
    ensures
        n.kind == NoticeKind::Success,
        n.title@ == "SCAN COMPLETE"@,
        n.message@ == scan_complete_text(count as nat, total_size),
{
    let number = format_number(count);
    let size = format_size(total_size);
    let message = join4("Found ", number.as_str(), " artifacts totaling ", size.as_str());
    let message = join2(message.as_str(), ".");
    notice(NoticeKind::Success, "SCAN COMPLETE", message)
}

/// The notice shown when a scan fails, carrying the error text.
pub fn scan_failed_notice(error: String) -> (n: StatusNotice)
    ensures
        n.kind == NoticeKind::Error,
        n.title@ == "SCAN FAILED"@,
        n.message@ == error@,
{
    notice(NoticeKind::Error, "SCAN FAILED", error)
}

/// The notice shown when the deletion manifest cannot be written, and the
/// error line that goes with it.
pub fn manifest_blocked_notice(error: &str) -> (r: (StatusNotice, String))
    ensures
        r.0.kind == NoticeKind::Error,
        r.0.title@ == "CLEANUP BLOCKED"@,
        r.0.message@ == "Could not write deletion manifest: "@ + error@,
        r.1@ == "Could not write deletion manifest"@,
{
    let message = join2("Could not write deletion manifest: ", error);
    (notice(NoticeKind::Error, "CLEANUP BLOCKED", message), owned("Could not write deletion manifest"))
}

/// The notice shown when the settings were saved.
pub fn settings_saved_notice() -> (n: StatusNotice)
    ensures
        n.kind == NoticeKind::Success,
        n.title@ == "SETTINGS SAVED"@,
        n.message@ == "Scan preferences were updated for future runs."@,
{
    notice(NoticeKind::Success, "SETTINGS SAVED", owned("Scan preferences were updated for future runs."))
}

/// The notice shown when the settings could not be saved, and the error
/// line that goes with it.
pub fn settings_failed_notice(error: String) -> (r: (StatusNotice, String))
    ensures
        r.0.kind == NoticeKind::Error,
        r.0.title@ == "SETTINGS NOT SAVED"@,
        r.0.message@ == error@,
        r.1@ == "Failed to save settings"@,
{
    (notice(NoticeKind::Error, "SETTINGS NOT SAVED", error), owned("Failed to save settings"))
}

/// What the mode did to the selected artifacts.
pub open spec fn action_label(mode: DeleteMode) -> Seq<char> {
    match mode {
        DeleteMode::Trash => "Moved selected artifacts to Trash."@,
        DeleteMode::Permanent => "Permanently deleted selected artifacts."@,
    }
}

/// Title, message and error line after a cleanup that processed `processed`
/// items with `failures` failures, cancelled or not.
pub open spec fn cleanup_outcome(
    mode: DeleteMode,
    processed: nat,
    cancelled: bool,
    failures: nat,
) -> (NoticeKind, Seq<char>, Seq<char>, Option<Seq<char>>) {
    if failures == 0 {
        (
            NoticeKind::Success,
            if cancelled { "CLEANUP CANCELLED"@ } else { "CLEANUP COMPLETE"@ },
            action_label(mode) + " "@ + grouped(processed) + " items processed."@
                + if cancelled { " Cancelled before finishing."@ } else { ""@ },
            None,
        )
    } else {
        (
            NoticeKind::Error,
            "CLEANUP INCOMPLETE"@,
            "Failed to delete "@ + decimal_u64(failures)
                + " directories; see details below for the affected paths and reasons."@
                + if cancelled { " Cancelled."@ } else { ""@ },
            Some("Failed to delete "@ + decimal_u64(failures) + " directories"@),
        )
    }
}

/// The notice shown when a cleanup ends, and the error line to show (if
/// any items failed).
pub fn cleanup_notice(mode: DeleteMode, processed: usize, cancelled: bool, failures: usize) -> (r: (
    StatusNotice,
    Option<String>,
))
    ensures
        ({
            let (kind, title, message, error) = cleanup_outcome(mode, processed as nat, cancelled, failures as nat);
            &&& r.0.kind == kind
            &&& r.0.title@ == title
            &&& r.0.message@ == message
            &&& match r.1 {
                Some(e) => error == Some(e@),
                None => error is None,
            }
        }),
{
    proof {
        reveal_strlit("");
    }
    if failures == 0 {
        let action = match mode {
            DeleteMode::Trash => "Moved selected artifacts to Trash.",
            DeleteMode::Permanent => "Permanently deleted selected artifacts.",
        };
        let title = if cancelled { "CLEANUP CANCELLED" } else { "CLEANUP COMPLETE" };
        let extra = if cancelled { " Cancelled before finishing." } else { "" };
        let number = format_number(processed);
        let message = join4(action, " ", number.as_str(), " items processed.");
        let message = join2(message.as_str(), extra);
        (notice(NoticeKind::Success, title, message), None)
    } else {
        let n = decimal_text(failures as u64);
        let note = if cancelled { " Cancelled." } else { "" };
        let message = join4(
            "Failed to delete ",
            n.as_str(),
            " directories; see details below for the affected paths and reasons.",
            note,
        );
        let error = join4("Failed to delete ", n.as_str(), " directories", "");
        (notice(NoticeKind::Error, "CLEANUP INCOMPLETE", message), Some(error))
    }
}

} // verus!
