//! The properties of one remote item.

use vstd::prelude::*;
use vstd::string::StringExecFns;

use crate::api::http::{check_status, failure_of, FailureTexts, FailureTextsView, GRAPH_BASE};
use crate::text::{blank, is_blank, owned};

verus! {

/// The properties of a remote item.
#[derive(Debug, PartialEq, Eq)]
pub struct DriveItemDetails {
    pub id: String,
    pub name: String,
    pub size: Option<u64>,
    pub mime_type: Option<String>,
    pub is_folder: bool,
    pub child_count: Option<i64>,
    pub created_at: Option<String>,
    pub last_modified_at: Option<String>,
    pub file_system_created_at: Option<String>,
    pub file_system_modified_at: Option<String>,
    pub web_url: Option<String>,
    pub download_url: Option<String>,
    pub etag: Option<String>,
    pub ctag: Option<String>,
    pub parent_path: Option<String>,
}

/// The file facet of an item.
#[derive(Debug, PartialEq, Eq)]
pub struct DriveFileFacetDto {
    pub mime_type: Option<String>,
}

/// The folder facet of an item.
#[derive(Debug, PartialEq, Eq)]
pub struct DriveFolderFacetDto {
    pub child_count: Option<i64>,
}

/// The times that the file system recorded.
#[derive(Debug, PartialEq, Eq)]
pub struct FileSystemInfoDto {
    pub created_date_time: Option<String>,
    pub last_modified_date_time: Option<String>,
}

/// Where an item lies.
#[derive(Debug, PartialEq, Eq)]
pub struct ParentReferenceDto {
    pub path: Option<String>,
}

/// The properties as the remote side describes them.
#[derive(Debug, PartialEq, Eq)]
pub struct DriveItemDetailsDto {
    pub id: String,
    pub name: Option<String>,
    pub size: Option<u64>,
    pub created_date_time: Option<String>,
    pub last_modified_date_time: Option<String>,
    pub e_tag: Option<String>,
    pub c_tag: Option<String>,
    pub web_url: Option<String>,
    pub download_url: Option<String>,
    pub file: Option<DriveFileFacetDto>,
    pub folder: Option<DriveFolderFacetDto>,
    pub file_system_info: Option<FileSystemInfoDto>,
    pub parent_reference: Option<ParentReferenceDto>,
}

/// The name shown for an item that has none.
pub open spec fn unnamed_text() -> Seq<char> {
    "(未命名)"@
}

/// The text with which a request without item id is refused.
pub open spec fn missing_id_text() -> Seq<char> {
    "drive item id is required"@
}

/// The fields that the details request selects.
pub open spec fn details_query() -> Seq<char> {
    "?$select=id,name,size,createdDateTime,lastModifiedDateTime,webUrl,eTag,cTag,file,folder,fileSystemInfo,parentReference,@microsoft.graph.downloadUrl"@
}

/// The address under which the properties of item `item_id` are asked
/// for. A blank item id is refused.
pub fn details_url(item_id: &str) -> (r: Result<String, String>)
    ensures
        if is_blank(item_id@) {
            r is Err && r->Err_0@ == missing_id_text()
        } else {
            r is Ok && r->Ok_0@ == GRAPH_BASE@ + "/me/drive/items/"@ + item_id@ + details_query()
        },
{
    if blank(item_id) {
        return Err(owned("drive item id is required"));
    }
    Ok(
        owned(GRAPH_BASE).concat("/me/drive/items/").concat(item_id).concat(
            "?$select=id,name,size,createdDateTime,lastModifiedDateTime,webUrl,eTag,cTag,file,folder,fileSystemInfo,parentReference,@microsoft.graph.downloadUrl",
        ),
    )
}

/// The properties that an answer of the remote side amounts to: an item
/// without name is shown as unnamed, an item is a folder when it has the
/// folder facet.
pub fn item_details(value: DriveItemDetailsDto) -> (d: DriveItemDetails)
    ensures
        d.id == value.id,
        d.name@ == match value.name {
            Some(n) => n@,
            None => unnamed_text(),
        },
        d.size == value.size,
        d.mime_type == match value.file {
            Some(f) => f.mime_type,
            None => None,
        },
        d.is_folder == value.folder is Some,
        d.child_count == match value.folder {
            Some(f) => f.child_count,
            None => None,
        },
        d.created_at == value.created_date_time,
        d.last_modified_at == value.last_modified_date_time,
        d.file_system_created_at == match value.file_system_info {
            Some(i) => i.created_date_time,
            None => None,
        },
        d.file_system_modified_at == match value.file_system_info {
            Some(i) => i.last_modified_date_time,
            None => None,
        },
        d.web_url == value.web_url,
        d.download_url == value.download_url,
        d.etag == value.e_tag,
        d.ctag == value.c_tag,
        d.parent_path == match value.parent_reference {
            Some(p) => p.path,
            None => None,
        },
{
    let is_folder = value.folder.is_some();
    let (created, modified) = match value.file_system_info {
        Some(i) => (i.created_date_time, i.last_modified_date_time),
        None => (None, None),
    };
    DriveItemDetails {
        id: value.id,
        name: match value.name {
            Some(n) => n,
            None => owned("(未命名)"),
        },
        size: value.size,
        mime_type: match value.file {
            Some(f) => f.mime_type,
            None => None,
        },
        is_folder,
        child_count: match value.folder {
            Some(f) => f.child_count,
            None => None,
        },
        created_at: value.created_date_time,
        last_modified_at: value.last_modified_date_time,
        file_system_created_at: created,
        file_system_modified_at: modified,
        web_url: value.web_url,
        download_url: value.download_url,
        etag: value.e_tag,
        ctag: value.c_tag,
        parent_path: match value.parent_reference {
            Some(p) => p.path,
            None => None,
        },
    }
}

impl From<DriveItemDetailsDto> for DriveItemDetails {
    fn from(value: DriveItemDetailsDto) -> (d: DriveItemDetails)
        ensures
            d.id == value.id,
            d.name@ == match value.name {
                Some(n) => n@,
                None => unnamed_text(),
            },
            d.size == value.size,
            d.mime_type == match value.file {
                Some(f) => f.mime_type,
                None => None,
            },
            d.is_folder == value.folder is Some,
            d.child_count == match value.folder {
                Some(f) => f.child_count,
                None => None,
            },
            d.created_at == value.created_date_time,
            d.last_modified_at == value.last_modified_date_time,
            d.file_system_created_at == match value.file_system_info {
                Some(i) => i.created_date_time,
                None => None,
            },
            d.file_system_modified_at == match value.file_system_info {
                Some(i) => i.last_modified_date_time,
                None => None,
            },
            d.web_url == value.web_url,
            d.download_url == value.download_url,
            d.etag == value.e_tag,
            d.ctag == value.c_tag,
            d.parent_path == match value.parent_reference {
                Some(p) => p.path,
                None => None,
            },
    {
        item_details(value)
    }
}

impl vstd::std_specs::convert::FromSpecImpl<DriveItemDetailsDto> for DriveItemDetails {
    open spec fn obeys_from_spec() -> bool {
        false
    }

    open spec fn from_spec(value: DriveItemDetailsDto) -> DriveItemDetails {
        arbitrary()
    }
}

/// The texts with which the details request reports its failures.
pub open spec fn details_texts() -> FailureTextsView {
    FailureTextsView {
        forbidden: None,
        not_found: Some("未找到指定的项目，可能已被移动或删除"@),
        precondition: None,
        failure_prefix: "graph api returned HTTP "@,
        failure_suffix: " while fetching item details"@,
    }
}

/// Judges the answer to the details request by its status.
pub fn details_outcome(code: u16, shown: &str) -> (r: Result<(), String>)
    ensures
        match failure_of(code, shown@, details_texts()) {
            Some(text) => r is Err && r->Err_0@ == text,
            None => r is Ok,
        },
{
    check_status(
        code,
        shown,
        FailureTexts {
            forbidden: None,
            not_found: Some(owned("未找到指定的项目，可能已被移动或删除")),
            precondition: None,
            failure_prefix: owned("graph api returned HTTP "),
            failure_suffix: owned(" while fetching item details"),
        },
    )
}

} // verus!
