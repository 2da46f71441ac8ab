//! Moving and renaming a remote item.

use vstd::prelude::*;
use vstd::string::StringExecFns;

use crate::api::drive::list::{unnamed_text, DriveFileFacet, DriveFolderFacet};
use crate::api::http::{check_status, failure_of, FailureTexts, FailureTextsView, GRAPH_BASE};
use crate::models::{DriveItemSummary, DriveItemSummaryView};
use crate::text::{blank, is_blank, opt_view, owned};

verus! {

/// The folder into which an item is moved.
#[derive(Debug, PartialEq, Eq)]
pub struct ParentRefDto {
    pub id: String,
}

/// The body of a move request.
#[derive(Debug, PartialEq, Eq)]
pub struct MoveRequest {
    pub parent_reference: Option<ParentRefDto>,
    pub name: Option<String>,
}

impl MoveRequest {
    /// The body that moves an item into the folder `parent_id`, if one is
    /// given, and renames it to `name`, if one is given.
    pub fn new(parent_id: Option<String>, name: Option<String>) -> (r: Self)
        ensures
            r.parent_reference == match parent_id {
                Some(id) => Some(ParentRefDto { id }),
                None => None,
            },
            r.name == name,
    {
        MoveRequest {
            parent_reference: match parent_id {
                Some(id) => Some(ParentRefDto { id }),
                None => None,
            },
            name,
        }
    }
}

/// A move that is ready to be sent.
#[derive(Debug, PartialEq, Eq)]
pub struct MovePlan {
    /// The address of the item.
    pub url: String,
    /// The body of the request.
    pub body: MoveRequest,
}

/// Why a move is refused before it is sent: a blank item id, a new parent
/// that is given but blank, or a new name that is given but blank.
pub open spec fn move_rejection(
    item_id: Seq<char>,
    new_parent_id: Option<Seq<char>>,
    new_name: Option<Seq<char>>,
) -> Option<Seq<char>> {
    if is_blank(item_id) {
        Some("drive item id is required"@)
    } else if new_parent_id is Some && is_blank(new_parent_id->0) {
        Some("new parent id cannot be empty string"@)
    } else if new_name is Some && is_blank(new_name->0) {
        Some("new name cannot be empty string"@)
    } else {
        None
    }
}

fn blank_if_given(value: &Option<String>) -> (r: bool)
    ensures
        r == (opt_view(*value) is Some && is_blank(opt_view(*value)->0)),
{
    match value {
        Some(v) => blank(v.as_str()),
        None => false,
    }
}

/// Prepares the move of item `item_id`.
pub fn move_request(item_id: &str, new_parent_id: Option<String>, new_name: Option<String>) -> (r:
    Result<MovePlan, String>)
    ensures
        match move_rejection(item_id@, opt_view(new_parent_id), opt_view(new_name)) {
            Some(text) => r is Err && r->Err_0@ == text,
            None => {
                &&& r is Ok
                &&& r->Ok_0.url@ == GRAPH_BASE@ + "/me/drive/items/"@ + item_id@
                &&& r->Ok_0.body.parent_reference == match new_parent_id {
                    Some(id) => Some(ParentRefDto { id }),
                    None => None,
                }
                &&& r->Ok_0.body.name == new_name
            },
        },
{
    if blank(item_id) {
        return Err(owned("drive item id is required"));
    }
    if blank_if_given(&new_parent_id) {
        return Err(owned("new parent id cannot be empty string"));
    }
    if blank_if_given(&new_name) {
        return Err(owned("new name cannot be empty string"));
    }
    Ok(
        MovePlan {
            url: owned(GRAPH_BASE).concat("/me/drive/items/").concat(item_id),
            body: MoveRequest::new(new_parent_id, new_name),
        },
    )
}

/// The item as the remote side describes it after the move.
#[derive(Debug, PartialEq, Eq)]
pub struct MoveResponse {
    pub id: String,
    pub name: Option<String>,
    pub size: Option<u64>,
    pub last_modified_date_time: Option<String>,
    pub folder: Option<DriveFolderFacet>,
    pub file: Option<DriveFileFacet>,
}

/// Summarises the moved item; a thumbnail is not part of the answer.
pub fn moved_item(payload: MoveResponse) -> (s: DriveItemSummary)
    ensures
        s@ == (DriveItemSummaryView {
            id: payload.id@,
            name: match payload.name {
                Some(n) => n@,
                None => unnamed_text(),
            },
            size: payload.size,
            is_folder: payload.folder is Some,
            child_count: match payload.folder {
                Some(f) => f.child_count,
                None => None,
            },
            mime_type: match payload.file {
                Some(f) => opt_view(f.mime_type),
                None => None,
            },
            last_modified: opt_view(payload.last_modified_date_time),
            thumbnail_url: None,
        }),
{
    let is_folder = payload.folder.is_some();
    DriveItemSummary {
        id: payload.id,
        name: match payload.name {
            Some(n) => n,
            None => owned("(未命名)"),
        },
        size: payload.size,
        is_folder,
        child_count: match payload.folder {
            Some(f) => f.child_count,
            None => None,
        },
        mime_type: match payload.file {
            Some(f) => f.mime_type,
            None => None,
        },
        last_modified: payload.last_modified_date_time,
        thumbnail_url: None,
    }
}

/// The texts with which a move reports its failures.
pub open spec fn move_texts() -> FailureTextsView {
    FailureTextsView {
        forbidden: None,
        not_found: Some("未找到指定的项目，可能已被移动或删除"@),
        precondition: Some("If-Match 校验失败，项目已被其他操作修改"@),
        failure_prefix: "graph api returned HTTP "@,
        failure_suffix: " while moving item"@,
    }
}

/// Judges the answer to a move by its status.
pub fn move_outcome(code: u16, shown: &str) -> (r: Result<(), String>)
    ensures
        match failure_of(code, shown@, move_texts()) {
            Some(text) => r is Err && r->Err_0@ == text,
            None => r is Ok,
        },
{
    check_status(
        code,
        shown,
        FailureTexts {
            forbidden: None,
            not_found: Some(owned("未找到指定的项目，可能已被移动或删除")),
            precondition: Some(owned("If-Match 校验失败，项目已被其他操作修改")),
            failure_prefix: owned("graph api returned HTTP "),
            failure_suffix: owned(" while moving item"),
        },
    )
}

} // verus!
