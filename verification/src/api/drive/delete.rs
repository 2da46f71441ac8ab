//! Deleting a remote item.

use vstd::prelude::*;
use vstd::string::StringExecFns;

use crate::api::http::{check_status, failure_of, FailureTexts, FailureTextsView, GRAPH_BASE};
use crate::text::{blank, is_blank, opt_view, owned};

verus! {

/// The request that deletes an item.
pub struct DeleteRequest {
    /// The address of the item.
    pub url: String,
    /// The value of the `If-Match` header, if one is sent.
    pub if_match: Option<String>,
    /// The value of the `Prefer` header, if one is sent.
    pub prefer: Option<String>,
}

/// The text with which a request without item id is refused.
pub open spec fn missing_id_text() -> Seq<char> {
    "drive item id is required"@
}

/// The `Prefer` header that asks the remote side to ignore locks.
pub open spec fn bypass_text() -> Seq<char> {
    "bypass-shared-lock,bypass-checked-out"@
}

/// Prepares the deletion of item `item_id`: the address, an `If-Match`
/// header unless the tag is missing or blank, and a `Prefer` header if
/// locks are to be bypassed. A blank item id is refused.
pub fn delete_request(item_id: &str, if_match: Option<String>, bypass_locks: bool) -> (r: Result<
    DeleteRequest,
    String,
>)
    ensures
        is_blank(item_id@) ==> r is Err && r->Err_0@ == missing_id_text(),
        !is_blank(item_id@) ==> {
            &&& r is Ok
            &&& r->Ok_0.url@ == GRAPH_BASE@ + "/me/drive/items/"@ + item_id@
            &&& opt_view(r->Ok_0.if_match) == match if_match {
                Some(tag) => if is_blank(tag@) {
                    None
                } else {
                    Some(tag@)
                },
                None => None,
            }
            &&& opt_view(r->Ok_0.prefer) == if bypass_locks {
                Some(bypass_text())
            } else {
                None
            }
        },
{
    if blank(item_id) {
        return Err(owned("drive item id is required"));
    }
    let url = owned(GRAPH_BASE).concat("/me/drive/items/").concat(item_id);
    let tag = match if_match {
        Some(tag) => if blank(tag.as_str()) {
            None
        } else {
            Some(tag)
        },
        None => None,
    };
    let prefer = if bypass_locks {
        Some(owned("bypass-shared-lock,bypass-checked-out"))
    } else {
        None
    };
    Ok(DeleteRequest { url, if_match: tag, prefer })
}

/// The texts with which a deletion reports its failures.
pub open spec fn delete_texts() -> FailureTextsView {
    FailureTextsView {
        forbidden: None,
        not_found: Some("找不到要删除的项目，可能已被移动或无权限"@),
        precondition: Some("删除被拒绝：ETag 不匹配或被共享锁占用"@),
        failure_prefix: "graph api returned HTTP "@,
        failure_suffix: " when deleting item"@,
    }
}

/// Judges the answer to a deletion by its status.
pub fn delete_outcome(code: u16, shown: &str) -> (r: Result<(), String>)
    ensures
        match failure_of(code, shown@, delete_texts()) {
            Some(text) => r is Err && r->Err_0@ == text,
            None => r is Ok,
        },
{
    check_status(
        code,
        shown,
        FailureTexts {
            forbidden: None,
            not_found: Some(owned("找不到要删除的项目，可能已被移动或无权限")),
            precondition: Some(owned("删除被拒绝：ETag 不匹配或被共享锁占用")),
            failure_prefix: owned("graph api returned HTTP "),
            failure_suffix: owned(" when deleting item"),
        },
    )
}

} // verus!
