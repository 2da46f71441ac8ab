//! Uploading a file: what is asked of the remote side, and what the
//! answers mean.

use vstd::prelude::*;
use vstd::string::{StrSliceExecFns, StringExecFns};

use crate::api::drive::list::unnamed_text;
use crate::api::http::{failure_of, plain_texts, success, GRAPH_BASE};
use crate::models::{DriveItemSummary, DriveItemSummaryView};
use crate::text::{
    blank, is_blank, opt_view, owned, percent_encode, percent_encoded, trim, trimmed,
};
use crate::upload_manager::chunked::{SessionStatus, SIMPLE_UPLOAD_MAX_BYTES};

verus! {

/// The file facet of an uploaded item.
#[derive(Debug, PartialEq, Eq)]
pub struct UploadFileFacet {
    pub mime_type: Option<String>,
}

/// An uploaded item as the remote side describes it.
#[derive(Debug, PartialEq, Eq)]
pub struct DriveItemUploadResponse {
    pub id: String,
    pub name: Option<String>,
    pub size: Option<u64>,
    pub last_modified_date_time: Option<String>,
    pub file: Option<UploadFileFacet>,
}

/// An upload session as the remote side describes it.
#[derive(Debug, PartialEq, Eq)]
pub struct UploadSessionResponse {
    pub upload_url: Option<String>,
    pub expiration_date_time: Option<String>,
    pub next_expected_ranges: Option<Vec<String>>,
    pub drive_item: Option<DriveItemUploadResponse>,
}

/// The summary of an uploaded item.
pub open spec fn uploaded_view(value: DriveItemUploadResponse) -> DriveItemSummaryView {
    DriveItemSummaryView {
        id: value.id@,
        name: match value.name {
            Some(n) => n@,
            None => unnamed_text(),
        },
        size: value.size,
        is_folder: false,
        child_count: None,
        mime_type: match value.file {
            Some(f) => opt_view(f.mime_type),
            None => None,
        },
        last_modified: opt_view(value.last_modified_date_time),
        thumbnail_url: None,
    }
}

/// Summarises an uploaded item: it is a file, shown as unnamed when it has
/// no name.
pub fn uploaded_item(value: DriveItemUploadResponse) -> (s: DriveItemSummary)
    ensures
        s@ == uploaded_view(value),
{
    DriveItemSummary {
        id: value.id,
        name: match value.name {
            Some(n) => n,
            None => owned("(未命名)"),
        },
        size: value.size,
        is_folder: false,
        child_count: None,
        mime_type: match value.file {
            Some(f) => f.mime_type,
            None => None,
        },
        last_modified: value.last_modified_date_time,
        thumbnail_url: None,
    }
}

impl From<DriveItemUploadResponse> for DriveItemSummary {
    fn from(value: DriveItemUploadResponse) -> (s: DriveItemSummary)
        ensures
            s@ == uploaded_view(value),
    {
        uploaded_item(value)
    }
}

impl vstd::std_specs::convert::FromSpecImpl<DriveItemUploadResponse> for DriveItemSummary {
    open spec fn obeys_from_spec() -> bool {
        false
    }

    open spec fn from_spec(value: DriveItemUploadResponse) -> DriveItemSummary {
        arbitrary()
    }
}

/// What a session tells the upload machine: the ranges it expects and the
/// item, once finished.
pub fn session_status(response: UploadSessionResponse) -> (s: SessionStatus)
    ensures
        s.next_expected_ranges == response.next_expected_ranges,
        s.item is Some == response.drive_item is Some,
        response.drive_item is Some ==> s.item->0@ == uploaded_view(response.drive_item->0),
{
    SessionStatus {
        next_expected_ranges: response.next_expected_ranges,
        item: match response.drive_item {
            Some(item) => Some(uploaded_item(item)),
            None => None,
        },
    }
}

/// The folder part of an upload address: the folder with the given id, or
/// the root when no id is given or nothing is left of it after trimming.
pub open spec fn folder_part(parent_id: Option<Seq<char>>) -> Seq<char> {
    match parent_id {
        Some(id) => if trimmed(id).len() == 0 {
            "/me/drive/root:/"@
        } else {
            "/me/drive/items/"@ + trimmed(id) + ":/"@
        },
        None => "/me/drive/root:/"@,
    }
}

/// How the remote side is to treat a file of the same name.
pub open spec fn conflict_behavior(overwrite: bool) -> Seq<char> {
    if overwrite {
        "replace"@
    } else {
        "rename"@
    }
}

/// The address to which a small file is put.
pub open spec fn small_upload_url(
    parent_id: Option<Seq<char>>,
    file_name: Seq<char>,
    overwrite: bool,
) -> Seq<char> {
    GRAPH_BASE@ + folder_part(parent_id) + percent_encoded(trimmed(file_name))
        + ":/content?@microsoft.graph.conflictBehavior="@ + conflict_behavior(overwrite)
}

/// The address at which an upload session is created.
pub open spec fn session_url(parent_id: Option<Seq<char>>, file_name: Seq<char>) -> Seq<char> {
    GRAPH_BASE@ + folder_part(parent_id) + percent_encoded(trimmed(file_name))
        + ":/createUploadSession"@
}

fn item_address(parent_id: &Option<String>, file_name: &str) -> (r: String)
    ensures
        r@ == GRAPH_BASE@ + folder_part(opt_view(*parent_id)) + percent_encoded(
            trimmed(file_name@),
        ),
{
    let folder = match parent_id {
        Some(id) => {
            let kept = trim(id.as_str());
            if kept.is_empty() {
                owned("/me/drive/root:/")
            } else {
                owned("/me/drive/items/").concat(kept).concat(":/")
            }
        },
        None => owned("/me/drive/root:/"),
    };
    owned(GRAPH_BASE).concat(folder.as_str()).concat(percent_encode(trim(file_name)).as_str())
}

fn conflict(overwrite: bool) -> (r: &'static str)
    ensures
        r@ == conflict_behavior(overwrite),
{
    if overwrite {
        "replace"
    } else {
        "rename"
    }
}

/// Why a small upload is refused before it is sent: a blank name, or a
/// payload above the limit of a single request.
pub open spec fn small_upload_rejection(file_name: Seq<char>, content_len: nat) -> Option<
    Seq<char>,
> {
    if is_blank(file_name) {
        Some("file name cannot be empty"@)
    } else if content_len > SIMPLE_UPLOAD_MAX_BYTES {
        Some("file too large for simple upload; please use chunked upload"@)
    } else {
        None
    }
}

/// Prepares the upload of a small file: the address to put the content
/// to.
pub fn small_upload_request(
    parent_id: &Option<String>,
    file_name: &str,
    content_len: usize,
    overwrite: bool,
) -> (r: Result<String, String>)
    ensures
        match small_upload_rejection(file_name@, content_len as nat) {
            Some(text) => r is Err && r->Err_0@ == text,
            None => r is Ok && r->Ok_0@ == small_upload_url(
                opt_view(*parent_id),
                file_name@,
                overwrite,
            ),
        },
{
    if blank(file_name) {
        return Err(owned("file name cannot be empty"));
    }
    if content_len > SIMPLE_UPLOAD_MAX_BYTES {
        return Err(owned("file too large for simple upload; please use chunked upload"));
    }
    Ok(
        item_address(parent_id, file_name).concat(
            ":/content?@microsoft.graph.conflictBehavior=",
        ).concat(conflict(overwrite)),
    )
}

/// The request that creates an upload session.
#[derive(Debug, PartialEq, Eq)]
pub struct SessionRequest {
    /// The address to post to.
    pub url: String,
    /// How the remote side is to treat a file of the same name.
    pub conflict_behavior: String,
    /// The name of the file.
    pub name: String,
}

/// Prepares the creation of an upload session for a file named
/// `file_name` in the folder `parent_id`.
pub fn session_request(parent_id: &Option<String>, file_name: &str, overwrite: bool) -> (r:
    SessionRequest)
    ensures
        r.url@ == session_url(opt_view(*parent_id), file_name@),
        r.conflict_behavior@ == conflict_behavior(overwrite),
        r.name@ == file_name@,
{
    SessionRequest {
        url: item_address(parent_id, file_name).concat(":/createUploadSession"),
        conflict_behavior: owned(conflict(overwrite)),
        name: owned(file_name),
    }
}

/// Judges the answer to the upload of a small file by its status.
pub fn upload_outcome(code: u16, shown: &str) -> (r: Result<(), String>)
    ensures
        match failure_of(
            code,
            shown@,
            plain_texts("graph api returned HTTP "@, " while uploading"@),
        ) {
            Some(text) => r is Err && r->Err_0@ == text,
            None => r is Ok,
        },
{
    crate::api::http::check_plain_status(
        code,
        shown,
        "graph api returned HTTP ",
        " while uploading",
    )
}

/// Judges the answer to the creation of a session by its status.
pub fn session_create_outcome(code: u16, shown: &str) -> (r: Result<(), String>)
    ensures
        match failure_of(
            code,
            shown@,
            plain_texts("graph api returned HTTP "@, " while creating upload session"@),
        ) {
            Some(text) => r is Err && r->Err_0@ == text,
            None => r is Ok,
        },
{
    crate::api::http::check_plain_status(
        code,
        shown,
        "graph api returned HTTP ",
        " while creating upload session",
    )
}

/// Judges the answer to a query of a session by its status: 404 means
/// that the session has expired.
pub fn session_query_outcome(code: u16, shown: &str) -> (r: Result<(), String>)
    ensures
        if code == 404 {
            r is Err && r->Err_0@ == "upload session expired or not found"@
        } else if !success(code) {
            r is Err && r->Err_0@ == "failed to query upload session, http "@ + shown@
        } else {
            r is Ok
        },
{
    if code == 404 {
        return Err(owned("upload session expired or not found"));
    }
    if !crate::api::http::is_success(code) {
        return Err(owned("failed to query upload session, http ").concat(shown));
    }
    Ok(())
}

/// Judges the answer to the cancellation of a session by its status: a
/// session that is gone already counts as cancelled.
pub fn cancel_upload_session(code: u16, shown: &str) -> (r: Result<(), String>)
    ensures
        if success(code) || code == 404 {
            r is Ok
        } else {
            r is Err && r->Err_0@ == "failed to cancel upload session, http "@ + shown@
        },
{
    if crate::api::http::is_success(code) || code == 404 {
        Ok(())
    } else {
        Err(owned("failed to cancel upload session, http ").concat(shown))
    }
}

/// The first `n` characters of `s`, or all of `s` if it has fewer.
pub open spec fn snippet(s: Seq<char>, n: nat) -> Seq<char> {
    if s.len() <= n {
        s
    } else {
        s.take(n as int)
    }
}

fn take_chars(s: &str, n: usize) -> (r: String)
    ensures
        r@ == snippet(s@, n as nat),
{
    let len = s.unicode_len();
    if len <= n {
        owned(s)
    } else {
        let part = s.substring_char(0, n);
        proof {
            assert(s@.subrange(0, n as int) =~= s@.take(n as int));
        }
        owned(part)
    }
}

/// The text that reports a session answer that cannot be read.
pub open spec fn unreadable_text(
    context: Seq<char>,
    reason: Seq<char>,
    shown: Seq<char>,
    body: Seq<char>,
) -> Seq<char> {
    context + ": parse failed ("@ + reason + ") http "@ + shown + ", body_snippet="@ + snippet(
        body,
        500,
    )
}

/// The text that reports a session answer without upload address.
pub open spec fn no_upload_url_text(context: Seq<char>, shown: Seq<char>, body: Seq<char>) -> Seq<
    char,
> {
    context + ": missing uploadUrl field http "@ + shown + ", body_snippet="@ + snippet(body, 200)
}

/// Accepts or refuses a session answer: refused are an answer that could
/// not be read, and, where the upload address is needed, an answer
/// without one. The texts quote the beginning of the body.
pub fn parse_upload_session_response(
    parsed: Result<UploadSessionResponse, String>,
    body: &str,
    context: &str,
    shown: &str,
    require_upload_url: bool,
) -> (r: Result<UploadSessionResponse, String>)
    ensures
        match parsed {
            Err(reason) => r is Err && r->Err_0@ == unreadable_text(
                context@,
                reason@,
                shown@,
                body@,
            ),
            Ok(session) => if require_upload_url && session.upload_url is None {
                r is Err && r->Err_0@ == no_upload_url_text(context@, shown@, body@)
            } else {
                r == Ok::<UploadSessionResponse, String>(session)
            },
        },
{
    match parsed {
        Err(reason) => Err(
            owned(context).concat(": parse failed (").concat(reason.as_str()).concat(
                ") http ",
            ).concat(shown).concat(", body_snippet=").concat(take_chars(body, 500).as_str()),
        ),
        Ok(session) => {
            if require_upload_url && session.upload_url.is_none() {
                return Err(
                    owned(context).concat(": missing uploadUrl field http ").concat(shown).concat(
                        ", body_snippet=",
                    ).concat(take_chars(body, 200).as_str()),
                );
            }
            Ok(session)
        },
    }
}

} // verus!
