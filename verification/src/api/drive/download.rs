//! Downloading a remote file: what is asked of the remote side, under
//! which name the file is saved, and what the answers mean.

use vstd::prelude::*;
use vstd::string::{StrSliceExecFns, StringExecFns};

use crate::api::http::{
    check_status, check_success, failure_of, success, FailureTexts, FailureTextsView, GRAPH_BASE,
};
use crate::models::DriveDownloadResult;
use crate::text::{blank, is_blank, opt_view, owned, str_eq, string_from_chars, trim, trimmed};

verus! {

/// The name under which a file is saved when the remote side names none
/// that can be used.
pub open spec fn fallback_name() -> Seq<char> {
    "download.bin"@
}

/// Whether a character may not stand in a file name on some platform.
pub open spec fn is_reserved(c: char) -> bool {
    c == '/' || c == '\\' || c == ':' || c == '*' || c == '?' || c == '"' || c == '<' || c == '>'
        || c == '|'
}

/// The character that stands for `c` in a file name: an underscore for a
/// reserved character, the character itself otherwise.
pub open spec fn replaced(c: char) -> char {
    if is_reserved(c) {
        '_'
    } else {
        c
    }
}

/// The name under which a file named `raw` is saved: the name without the
/// white space around it, reserved characters replaced by underscores; the
/// fallback name where that leaves nothing, or only `.` or `..`.
pub open spec fn sanitized(raw: Seq<char>) -> Seq<char> {
    let kept = trimmed(raw);
    let candidate = if kept.len() == 0 {
        fallback_name()
    } else {
        kept
    };
    let cleaned = trimmed(candidate.map_values(|c: char| replaced(c)));
    if cleaned.len() == 0 || cleaned == "."@ || cleaned == ".."@ {
        fallback_name()
    } else {
        cleaned
    }
}

fn replace_reserved(c: char) -> (r: char)
    ensures
        r == replaced(c),
{
    if c == '/' || c == '\\' || c == ':' || c == '*' || c == '?' || c == '"' || c == '<' || c == '>'
        || c == '|' {
        '_'
    } else {
        c
    }
}

/// Makes a file name out of the name that the remote side gives.
pub fn sanitize_file_name(raw: &str) -> (r: String)
    ensures
        r@ == sanitized(raw@),
{
    let kept = trim(raw);
    let candidate = if kept.is_empty() {
        "download.bin"
    } else {
        kept
    };
    let n = candidate.unicode_len();
    let mut chars: Vec<char> = Vec::new();
    let mut i: usize = 0;
    while i < n
        invariant
            i <= n == candidate@.len(),
            chars@ == candidate@.take(i as int).map_values(|c: char| replaced(c)),
        decreases n - i,
    {
        let ghost before = chars@;
        chars.push(replace_reserved(candidate.get_char(i)));
        proof {
            assert(candidate@.take(i + 1) =~= candidate@.take(i as int).push(candidate@[i as int]));
            assert(chars@ =~= candidate@.take(i + 1).map_values(|c: char| replaced(c)));
        }
        i += 1;
    }
    proof {
        assert(candidate@.take(i as int) =~= candidate@);
    }
    let mapped = string_from_chars(&chars);
    let cleaned = trim(mapped.as_str());
    if cleaned.is_empty() || str_eq(cleaned, ".") || str_eq(cleaned, "..") {
        owned("download.bin")
    } else {
        owned(cleaned)
    }
}

/// What the remote side tells about an item before it is downloaded.
#[derive(Debug, PartialEq, Eq)]
pub struct DownloadMetadata {
    pub name: Option<String>,
    pub size: Option<u64>,
    /// Whether the item has the file facet.
    pub is_file: bool,
    /// The address from which the content can be had without credential.
    pub download_url: Option<String>,
}

/// Why a download is refused before anything is asked of the remote side:
/// a blank item id or a blank target directory.
pub open spec fn download_rejection(item_id: Seq<char>, target_dir: Seq<char>) -> Option<
    Seq<char>,
> {
    if is_blank(item_id) {
        Some("drive item id is required"@)
    } else if is_blank(target_dir) {
        Some("target directory is required"@)
    } else {
        None
    }
}

/// Checks the inputs of a download.
pub fn check_download_inputs(item_id: &str, target_dir: &str) -> (r: Result<(), String>)
    ensures
        match download_rejection(item_id@, target_dir@) {
            Some(text) => r is Err && r->Err_0@ == text,
            None => r is Ok,
        },
{
    if blank(item_id) {
        return Err(owned("drive item id is required"));
    }
    if blank(target_dir) {
        return Err(owned("target directory is required"));
    }
    Ok(())
}

/// The address under which the metadata of item `item_id` is asked for.
pub fn metadata_url(item_id: &str) -> (r: String)
    ensures
        r@ == GRAPH_BASE@ + "/me/drive/items/"@ + item_id@
            + "?$select=name,size,file,@microsoft.graph.downloadUrl"@,
{
    owned(GRAPH_BASE).concat("/me/drive/items/").concat(item_id).concat(
        "?$select=name,size,file,@microsoft.graph.downloadUrl",
    )
}

/// The texts with which the metadata request reports its failures.
pub open spec fn metadata_texts() -> FailureTextsView {
    FailureTextsView {
        forbidden: None,
        not_found: Some("找不到指定的文件，可能已经被移动或删除"@),
        precondition: None,
        failure_prefix: "graph api returned HTTP "@,
        failure_suffix: " while fetching download info"@,
    }
}

/// Judges the answer to the metadata request by its status.
pub fn metadata_outcome(code: u16, shown: &str) -> (r: Result<(), String>)
    ensures
        match failure_of(code, shown@, metadata_texts()) {
            Some(text) => r is Err && r->Err_0@ == text,
            None => r is Ok,
        },
{
    check_status(
        code,
        shown,
        FailureTexts {
            forbidden: None,
            not_found: Some(owned("找不到指定的文件，可能已经被移动或删除")),
            precondition: None,
            failure_prefix: owned("graph api returned HTTP "),
            failure_suffix: owned(" while fetching download info"),
        },
    )
}

/// From where and under which name a file is downloaded.
#[derive(Debug, PartialEq, Eq)]
pub struct DownloadPlan {
    /// The address of the content.
    pub endpoint: String,
    /// The credential to send along, if the address needs one.
    pub bearer_token: Option<String>,
    /// The name under which the file is saved.
    pub file_name: String,
    /// The size that the remote side announces.
    pub expected_size: Option<u64>,
}

/// The text with which the download of something that is no file is
/// refused.
pub open spec fn not_a_file_text() -> Seq<char> {
    "选中的项目不是可下载的文件"@
}

/// Plans the download of item `item_id` from its metadata: an item that
/// is no file is refused; the content is fetched from the address that the
/// metadata names, without credential, or else from the content address of
/// the item, with the access token; the file is saved under the sanitized
/// name of the item, or the fallback name when it has none.
pub fn download_plan(item_id: &str, access_token: &str, metadata: DownloadMetadata) -> (r: Result<
    DownloadPlan,
    String,
>)
    ensures
        !metadata.is_file ==> r is Err && r->Err_0@ == not_a_file_text(),
        metadata.is_file ==> {
            &&& r is Ok
            &&& r->Ok_0.endpoint@ == match metadata.download_url {
                Some(url) => url@,
                None => GRAPH_BASE@ + "/me/drive/items/"@ + item_id@ + "/content"@,
            }
            &&& opt_view(r->Ok_0.bearer_token) == match metadata.download_url {
                Some(_) => None,
                None => Some(access_token@),
            }
            &&& r->Ok_0.file_name@ == match metadata.name {
                Some(name) => sanitized(name@),
                None => fallback_name(),
            }
            &&& r->Ok_0.expected_size == metadata.size
        },
{
    if !metadata.is_file {
        return Err(owned("选中的项目不是可下载的文件"));
    }
    let (endpoint, bearer_token) = match metadata.download_url {
        Some(url) => (url, None),
        None => (
            owned(GRAPH_BASE).concat("/me/drive/items/").concat(item_id).concat("/content"),
            Some(owned(access_token)),
        ),
    };
    let file_name = match metadata.name {
        Some(name) => sanitize_file_name(name.as_str()),
        None => owned("download.bin"),
    };
    Ok(DownloadPlan { endpoint, bearer_token, file_name, expected_size: metadata.size })
}

/// Whether the file may be written at its destination: not when something
/// exists there and overwriting was not asked for.
pub fn check_destination(exists: bool, overwrite: bool, destination: &str) -> (r: Result<
    (),
    String,
>)
    ensures
        if exists && !overwrite {
            r is Err && r->Err_0@ == "文件已存在："@ + destination@
                + "（如需覆盖请设置 overwrite=true）"@
        } else {
            r is Ok
        },
{
    if exists && !overwrite {
        return Err(
            owned("文件已存在：").concat(destination).concat("（如需覆盖请设置 overwrite=true）"),
        );
    }
    Ok(())
}

/// Judges the answer of the content address by its status.
pub fn content_outcome(code: u16, shown: &str) -> (r: Result<(), String>)
    ensures
        if success(code) {
            r is Ok
        } else {
            r is Err && r->Err_0@ == "download endpoint returned HTTP "@ + shown@
        },
{
    let r = check_success(code, shown, "download endpoint returned HTTP ", "");
    proof {
        reveal_strlit("");
        assert("download endpoint returned HTTP "@ + shown@ + ""@
            =~= "download endpoint returned HTTP "@ + shown@);
    }
    r
}

/// The report of a finished download.
pub fn download_result(plan: &DownloadPlan, saved_path: String, bytes_downloaded: u64) -> (r:
    DriveDownloadResult)
    ensures
        r.file_name@ == plan.file_name@,
        r.saved_path == saved_path,
        r.bytes_downloaded == bytes_downloaded,
        r.expected_size == plan.expected_size,
{
    DriveDownloadResult {
        file_name: plan.file_name.clone(),
        saved_path,
        bytes_downloaded,
        expected_size: plan.expected_size,
    }
}

} // verus!
