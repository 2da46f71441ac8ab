//! The rows of the persistent store, as plain values, and the conversions
//! between the unsigned sizes of the tasks and the signed integers of the
//! store.

use vstd::prelude::*;
use vstd::string::StringExecFns;

use crate::clock::current_timestamp;
use crate::text::{opt_view, owned};

verus! {

/// An unsigned size as the store holds it: sizes beyond the signed range
/// are stored as absent.
pub open spec fn stored_size(value: Option<u64>) -> Option<i64> {
    match value {
        Some(v) => if v <= i64::MAX as u64 {
            Some(v as i64)
        } else {
            None
        },
        None => None,
    }
}

/// A stored integer read back as a size: negative values are read as
/// absent.
pub open spec fn loaded_size(value: Option<i64>) -> Option<u64> {
    match value {
        Some(v) => if v >= 0 {
            Some(v as u64)
        } else {
            None
        },
        None => None,
    }
}

/// Converts a size for storing.
pub fn opt_u64_to_i64(value: Option<u64>) -> (r: Option<i64>)
    ensures
        r == stored_size(value),
{
    match value {
        Some(v) => if v <= i64::MAX as u64 {
            Some(v as i64)
        } else {
            None
        },
        None => None,
    }
}

/// Converts a stored integer back into a size.
pub fn opt_i64_to_u64(value: Option<i64>) -> (r: Option<u64>)
    ensures
        r == loaded_size(value),
{
    match value {
        Some(v) => if v >= 0 {
            Some(v as u64)
        } else {
            None
        },
        None => None,
    }
}

/// A size within the signed range comes back from the store as it went in.
pub proof fn lemma_size_round_trip(value: Option<u64>)
    requires
        value is Some ==> value->0 <= i64::MAX as u64,
    ensures
        loaded_size(stored_size(value)) == value,
{
}

/// The row of the credential table.
#[derive(Debug, PartialEq, Eq)]
pub struct AuthTokenRecord {
    pub client_id: String,
    pub access_token: String,
    pub refresh_token: Option<String>,
    pub expires_in_seconds: Option<i64>,
    pub id_token: Option<String>,
    pub scope: Option<String>,
    pub token_type: Option<String>,
    pub updated_at_millis: i64,
}

impl Clone for AuthTokenRecord {
    fn clone(&self) -> (r: Self)
        ensures
            r == *self,
    {
        AuthTokenRecord {
            client_id: self.client_id.clone(),
            access_token: self.access_token.clone(),
            refresh_token: self.refresh_token.clone(),
            expires_in_seconds: self.expires_in_seconds,
            id_token: self.id_token.clone(),
            scope: self.scope.clone(),
            token_type: self.token_type.clone(),
            updated_at_millis: self.updated_at_millis,
        }
    }
}

/// Builds the credential row from the parts of a token response, stamped
/// with the given time. A lifetime beyond the signed range is stored as
/// absent.
pub fn build_record_at(
    client_id: String,
    access_token: String,
    refresh_token: Option<String>,
    expires_in_seconds: Option<u64>,
    id_token: Option<String>,
    scope: Option<String>,
    token_type: Option<String>,
    updated_at_millis: i64,
) -> (r: AuthTokenRecord)
    ensures
        r.client_id@ == client_id@,
        r.access_token@ == access_token@,
        opt_view(r.refresh_token) == opt_view(refresh_token),
        r.expires_in_seconds == stored_size(expires_in_seconds),
        opt_view(r.id_token) == opt_view(id_token),
        opt_view(r.scope) == opt_view(scope),
        opt_view(r.token_type) == opt_view(token_type),
        r.updated_at_millis == updated_at_millis,
{
    AuthTokenRecord {
        client_id,
        access_token,
        refresh_token,
        expires_in_seconds: opt_u64_to_i64(expires_in_seconds),
        id_token,
        scope,
        token_type,
        updated_at_millis,
    }
}

/// Builds the credential row from the parts of a token response, stamped
/// with the current time.
pub fn build_record(
    client_id: String,
    access_token: String,
    refresh_token: Option<String>,
    expires_in_seconds: Option<u64>,
    id_token: Option<String>,
    scope: Option<String>,
    token_type: Option<String>,
) -> (r: AuthTokenRecord)
    ensures
        r.client_id@ == client_id@,
        r.access_token@ == access_token@,
        opt_view(r.refresh_token) == opt_view(refresh_token),
        r.expires_in_seconds == stored_size(expires_in_seconds),
        opt_view(r.id_token) == opt_view(id_token),
        opt_view(r.scope) == opt_view(scope),
        opt_view(r.token_type) == opt_view(token_type),
{
    let now = current_timestamp();
    build_record_at(
        client_id,
        access_token,
        refresh_token,
        expires_in_seconds,
        id_token,
        scope,
        token_type,
        now,
    )
}

/// The row of the download table.
#[derive(Debug, PartialEq, Eq)]
pub struct DownloadTaskRecord {
    pub item_id: String,
    pub item_name: String,
    pub size: Option<i64>,
    pub is_folder: bool,
    pub child_count: Option<i64>,
    pub mime_type: Option<String>,
    pub last_modified: Option<String>,
    pub thumbnail_url: Option<String>,
    pub status: i64,
    pub started_at: i64,
    pub completed_at: Option<i64>,
    pub saved_path: Option<String>,
    pub size_label: Option<i64>,
    pub bytes_downloaded: Option<i64>,
    pub error_message: Option<String>,
    pub updated_at_millis: i64,
}

impl Clone for DownloadTaskRecord {
    fn clone(&self) -> (r: Self)
        ensures
            r == *self,
    {
        DownloadTaskRecord {
            item_id: self.item_id.clone(),
            item_name: self.item_name.clone(),
            size: self.size,
            is_folder: self.is_folder,
            child_count: self.child_count,
            mime_type: self.mime_type.clone(),
            last_modified: self.last_modified.clone(),
            thumbnail_url: self.thumbnail_url.clone(),
            status: self.status,
            started_at: self.started_at,
            completed_at: self.completed_at,
            saved_path: self.saved_path.clone(),
            size_label: self.size_label,
            bytes_downloaded: self.bytes_downloaded,
            error_message: self.error_message.clone(),
            updated_at_millis: self.updated_at_millis,
        }
    }
}

/// The row of the upload table.
#[derive(Debug, PartialEq, Eq)]
pub struct UploadTaskRecord {
    pub task_id: String,
    pub file_name: String,
    pub local_path: String,
    pub size: Option<i64>,
    pub mime_type: Option<String>,
    pub parent_id: Option<String>,
    pub remote_id: Option<String>,
    pub status: i64,
    pub started_at: i64,
    pub completed_at: Option<i64>,
    pub bytes_uploaded: Option<i64>,
    pub error_message: Option<String>,
    pub session_url: Option<String>,
    pub updated_at_millis: i64,
}

impl Clone for UploadTaskRecord {
    fn clone(&self) -> (r: Self)
        ensures
            r == *self,
    {
        UploadTaskRecord {
            task_id: self.task_id.clone(),
            file_name: self.file_name.clone(),
            local_path: self.local_path.clone(),
            size: self.size,
            mime_type: self.mime_type.clone(),
            parent_id: self.parent_id.clone(),
            remote_id: self.remote_id.clone(),
            status: self.status,
            started_at: self.started_at,
            completed_at: self.completed_at,
            bytes_uploaded: self.bytes_uploaded,
            error_message: self.error_message.clone(),
            session_url: self.session_url.clone(),
            updated_at_millis: self.updated_at_millis,
        }
    }
}

/// The table of the stored credential.
pub const AUTH_TABLE_SCHEMA: &'static str = "
CREATE TABLE IF NOT EXISTS auth_tokens (
    id INTEGER PRIMARY KEY CHECK (id = 1),
    client_id TEXT NOT NULL,
    access_token TEXT NOT NULL,
    refresh_token TEXT,
    expires_in_seconds INTEGER,
    id_token TEXT,
    scope TEXT,
    token_type TEXT,
    updated_at_millis INTEGER NOT NULL
);";

/// The table of the download queue.
pub const DOWNLOAD_TABLE_SCHEMA: &'static str = "
CREATE TABLE IF NOT EXISTS download_tasks (
    item_id TEXT PRIMARY KEY,
    item_name TEXT NOT NULL,
    size INTEGER,
    is_folder INTEGER NOT NULL,
    child_count INTEGER,
    mime_type TEXT,
    last_modified TEXT,
    thumbnail_url TEXT,
    status INTEGER NOT NULL,
    started_at INTEGER NOT NULL,
    completed_at INTEGER,
    saved_path TEXT,
    size_label INTEGER,
    error_message TEXT,
    updated_at_millis INTEGER NOT NULL
);";

/// The table of the upload queue.
pub const UPLOAD_TABLE_SCHEMA: &'static str = "
CREATE TABLE IF NOT EXISTS upload_tasks (
    task_id TEXT PRIMARY KEY,
    file_name TEXT NOT NULL,
    local_path TEXT NOT NULL,
    size INTEGER,
    mime_type TEXT,
    parent_id TEXT,
    remote_id TEXT,
    status INTEGER NOT NULL,
    started_at INTEGER NOT NULL,
    completed_at INTEGER,
    bytes_uploaded INTEGER,
    error_message TEXT,
    session_url TEXT,
    updated_at_millis INTEGER NOT NULL
);";

/// The table of the settings.
pub const SETTINGS_TABLE_SCHEMA: &'static str = "
CREATE TABLE IF NOT EXISTS settings (
    key TEXT PRIMARY KEY,
    value TEXT NOT NULL,
    updated_at_millis INTEGER NOT NULL
);";

/// Whether `needle` occurs somewhere in `hay`.
pub open spec fn occurs_in(needle: Seq<char>, hay: Seq<char>) -> bool {
    exists|i: int|
        0 <= i <= hay.len() - needle.len() && #[trigger] hay.subrange(i, i + needle.len())
            == needle
}

/// Calls `str::contains` with a text to look for, which tells whether
/// that text occurs in the receiver.
#[verifier::external_body]
fn contains_text(hay: &str, needle: &str) -> (r: bool)
    ensures
        r == occurs_in(needle@, hay@),
{
    hay.contains(needle)
}

/// The statement that adds a column to a table.
pub fn add_column_sql(table: &str, column: &str, definition: &str) -> (sql: String)
    ensures
        sql@ == "ALTER TABLE "@ + table@ + " ADD COLUMN "@ + column@ + " "@ + definition@,
{
    owned("ALTER TABLE ").concat(table).concat(" ADD COLUMN ").concat(column).concat(" ").concat(
        definition,
    )
}

/// Why a statement failed: the message of the database, if it gave one,
/// and the failure as it is shown.
pub struct SqlFailure {
    pub message: Option<String>,
    pub shown: String,
}

/// Judges the attempt to add a column: that the column exists already is
/// no failure, so that the same additions can be made at every start.
pub fn ensure_column(outcome: Result<(), SqlFailure>, table: &str, column: &str) -> (r: Result<
    (),
    String,
>)
    ensures
        match outcome {
            Ok(_) => r is Ok,
            Err(failure) => if failure.message is Some && occurs_in(
                "duplicate column name"@,
                failure.message->0@,
            ) {
                r is Ok
            } else {
                r is Err && r->Err_0@ == "failed to add column "@ + column@ + " on "@ + table@
                    + ": "@ + failure.shown@
            },
        },
{
    match outcome {
        Ok(_) => Ok(()),
        Err(failure) => {
            let exists_already = match &failure.message {
                Some(message) => contains_text(message.as_str(), "duplicate column name"),
                None => false,
            };
            if exists_already {
                Ok(())
            } else {
                Err(
                    owned("failed to add column ").concat(column).concat(" on ").concat(
                        table,
                    ).concat(": ").concat(failure.shown.as_str()),
                )
            }
        },
    }
}

} // verus!
