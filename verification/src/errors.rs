//! The reasons for which a queue refuses a request.

use vstd::prelude::*;

use crate::text::owned;

verus! {

/// Why a queue operation was refused. Each of these is reported to the
/// caller at once; failures of a running transfer end up in the task record
/// instead.
#[derive(Clone, Copy, Debug, PartialEq, Eq, Structural)]
pub enum QueueError {
    /// The identity of the transfer (item id or file name) is blank.
    MissingIdentity,
    /// The target directory or local path is blank.
    MissingPath,
    /// The payload is larger than a single-request upload may carry.
    PayloadTooLarge,
    /// A running task already exists for the same identity.
    DuplicateActive,
    /// No running task is registered under the given id.
    NotFound,
}

/// The text in which the download queue reports a refusal.
pub open spec fn download_error_text(e: QueueError) -> Seq<char> {
    match e {
        QueueError::MissingIdentity => "drive item id is required"@,
        QueueError::MissingPath => "target directory is required"@,
        QueueError::PayloadTooLarge => "file too large for a single request"@,
        QueueError::DuplicateActive => "this file is already in queue"@,
        QueueError::NotFound => "no such download task, or it has already finished"@,
    }
}

/// The text in which the upload queue reports a refusal.
pub open spec fn upload_error_text(e: QueueError) -> Seq<char> {
    match e {
        QueueError::MissingIdentity => "file name is required"@,
        QueueError::MissingPath => "local path is required"@,
        QueueError::PayloadTooLarge => "file too large for simple upload; please use chunked upload"@,
        QueueError::DuplicateActive => "a file of the same name is already in queue"@,
        QueueError::NotFound => "no such upload task, or it has already finished"@,
    }
}

/// Renders a refusal of the download queue.
pub fn download_error_message(e: QueueError) -> (text: String)
    ensures
        text@ == download_error_text(e),
{
    match e {
        QueueError::MissingIdentity => owned("drive item id is required"),
        QueueError::MissingPath => owned("target directory is required"),
        QueueError::PayloadTooLarge => owned("file too large for a single request"),
        QueueError::DuplicateActive => owned("this file is already in queue"),
        QueueError::NotFound => owned("no such download task, or it has already finished"),
    }
}

/// Renders a refusal of the upload queue.
pub fn upload_error_message(e: QueueError) -> (text: String)
    ensures
        text@ == upload_error_text(e),
{
    match e {
        QueueError::MissingIdentity => owned("file name is required"),
        QueueError::MissingPath => owned("local path is required"),
        QueueError::PayloadTooLarge => owned(
            "file too large for simple upload; please use chunked upload",
        ),
        QueueError::DuplicateActive => owned("a file of the same name is already in queue"),
        QueueError::NotFound => owned("no such upload task, or it has already finished"),
    }
}

} // verus!
