//! What is reported of a single file: whether it exists, its size, and when
//! it was created and modified.

use std::fmt::Write;
use vstd::prelude::*;
use crate::models::opt_text;

verus! {

/// What the caller read of a file.
pub struct FileTimes {
    pub size: u64,
    /// Creation time in seconds since the epoch, where the system tells it.
    pub created: Option<i64>,
    /// Modification time in seconds since the epoch, where the system tells
    /// it.
    pub modified: Option<i64>,
}

/// The report on a file.
#[derive(Debug, Clone)]
pub struct FileMetadata {
    pub exists: bool,
    pub size: Option<u64>,
    pub created: Option<String>,
    pub modified: Option<String>,
    pub error: Option<String>,
}

/// The text that chrono writes for a moment in universal time, given in
/// seconds since the epoch, under a format pattern; `None` for a moment
/// outside the range of the calendar and for a pattern that chrono cannot
/// write by.
pub uninterp spec fn utc_label_of(secs: int, pattern: Seq<char>) -> Option<Seq<char>>;

/// The pattern of a file's times: year, month, day, hours, minutes and
/// seconds, followed by the name of universal time.
pub open spec fn moment_pattern() -> Seq<char> {
    "%Y-%m-%d %H:%M:%S UTC"@
}

/// Calls `DateTime::from_timestamp` of the chrono crate and writes the
/// moment with `DateTime::format` under the given pattern. Trusted: the
/// result is the text named by [`utc_label_of`], absent exactly when chrono
/// knows no such moment or fails to write it.
#[verifier::external_body]
fn utc_label(secs: i64, pattern: &str) -> (label: Option<String>)
    ensures
        opt_text(label) == utc_label_of(secs as int, pattern@),
{
    match chrono::DateTime::from_timestamp(secs, 0) {
        Some(moment) => {
            let mut label = String::new();
            match write!(label, "{}", moment.format(pattern)) {
                Ok(_) => Some(label),
                Err(_) => None,
            }
        },
        None => None,
    }
}

/// The text shown for a moment: its label, or a notice when it has none.
pub open spec fn label_text(label: Option<Seq<char>>) -> Seq<char> {
    match label {
        Some(text) => text,
        None => "Invalid timestamp"@,
    }
}

/// The text shown for a moment given its label, if it has one.
pub fn label_or_invalid(label: Option<String>) -> (text: String)
    ensures
        text@ == label_text(opt_text(label)),
{
    match label {
        Some(text) => text,
        None => "Invalid timestamp".to_string(),
    }
}

/// The text shown for an optional moment.
pub open spec fn moment_text(secs: Option<i64>) -> Option<Seq<char>> {
    match secs {
        Some(secs) => Some(label_text(utc_label_of(secs as int, moment_pattern()))),
        None => None,
    }
}

/// The text shown for an optional moment.
pub fn describe_moment(secs: Option<i64>) -> (text: Option<String>)
    ensures
        opt_text(text) == moment_text(secs),
{
    match secs {
        Some(secs) => Some(label_or_invalid(utc_label(secs, "%Y-%m-%d %H:%M:%S UTC"))),
        None => None,
    }
}

/// Reports on a file from what the caller read of it, or from the reason why
/// it could not be read. A file that could not be read is reported as not
/// existing, with the reason.
pub fn meta(read: Result<FileTimes, String>) -> (report: FileMetadata)
    ensures
        match read {
            Ok(times) => report.exists && report.size == Some(times.size) && opt_text(
                report.created,
            ) == moment_text(times.created) && opt_text(report.modified) == moment_text(
                times.modified,
            ) && report.error is None,
            Err(reason) => !report.exists && report.size is None && report.created is None
                && report.modified is None && opt_text(report.error) == Some(reason@),
        },
{
    match read {
        Ok(times) => FileMetadata {
            exists: true,
            size: Some(times.size),
            created: describe_moment(times.created),
            modified: describe_moment(times.modified),
            error: None,
        },
        Err(reason) => FileMetadata {
            exists: false,
            size: None,
            created: None,
            modified: None,
            error: Some(reason),
        },
    }
}

} // verus!
