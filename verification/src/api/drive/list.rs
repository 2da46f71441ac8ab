//! Listing the children of a remote folder.

use vstd::prelude::*;
use vstd::string::{StrSliceExecFns, StringExecFns};

use crate::api::http::{check_plain_status, failure_of, plain_texts, GRAPH_BASE};
use crate::models::{DriveItemSummary, DriveItemSummaryView, DrivePage};
use crate::text::{blank, is_blank, opt_view, owned, percent_encode, percent_encoded};

verus! {

/// The fields that a listing selects.
pub open spec fn thumbnail_query() -> Seq<char> {
    "?$select=id,name,size,lastModifiedDateTime,folder,file&$expand=thumbnails($select=small,medium)"@
}

/// One thumbnail.
#[derive(Debug, PartialEq, Eq)]
pub struct ThumbnailDto {
    pub url: Option<String>,
}

/// The thumbnails of one item in three sizes.
#[derive(Debug, PartialEq, Eq)]
pub struct ThumbnailSetDto {
    pub small: Option<ThumbnailDto>,
    pub medium: Option<ThumbnailDto>,
    pub large: Option<ThumbnailDto>,
}

/// The folder facet of an item.
#[derive(Debug, PartialEq, Eq)]
pub struct DriveFolderFacet {
    pub child_count: Option<i64>,
}

/// The file facet of an item.
#[derive(Debug, PartialEq, Eq)]
pub struct DriveFileFacet {
    pub mime_type: Option<String>,
}

/// An item as the remote side lists it.
#[derive(Debug, PartialEq, Eq)]
pub struct DriveItemDto {
    pub id: String,
    pub name: Option<String>,
    pub size: Option<u64>,
    pub last_modified_date_time: Option<String>,
    pub folder: Option<DriveFolderFacet>,
    pub file: Option<DriveFileFacet>,
    pub thumbnails: Option<Vec<ThumbnailSetDto>>,
}

/// A page of a listing as the remote side sends it.
#[derive(Debug, PartialEq, Eq)]
pub struct DriveChildrenResponse {
    pub value: Vec<DriveItemDto>,
    pub next_link: Option<String>,
}

/// The address of a thumbnail, if it has one.
pub open spec fn address_of(t: Option<ThumbnailDto>) -> Option<String> {
    match t {
        Some(thumbnail) => thumbnail.url,
        None => None,
    }
}

impl ThumbnailSetDto {
    /// The address of the smallest thumbnail that has one.
    pub open spec fn best(self) -> Option<String> {
        if address_of(self.small) is Some {
            address_of(self.small)
        } else if address_of(self.medium) is Some {
            address_of(self.medium)
        } else {
            address_of(self.large)
        }
    }

    /// Picks the address of the smallest thumbnail that has one.
    pub fn best_url(self) -> (r: Option<String>)
        ensures
            r == self.best(),
    {
        let small = match self.small {
            Some(t) => t.url,
            None => None,
        };
        if small.is_some() {
            return small;
        }
        let medium = match self.medium {
            Some(t) => t.url,
            None => None,
        };
        if medium.is_some() {
            return medium;
        }
        match self.large {
            Some(t) => t.url,
            None => None,
        }
    }
}

/// The predicate "has an address in some size".
pub open spec fn has_best() -> spec_fn(ThumbnailSetDto) -> bool {
    |set: ThumbnailSetDto| set.best() is Some
}

/// The address of the first set of thumbnails that has one.
pub open spec fn first_thumbnail(sets: Option<Vec<ThumbnailSetDto>>) -> Option<String> {
    match sets {
        Some(list) => {
            let at = crate::queue_model::first_index(list@, has_best());
            if at < list@.len() {
                list@[at].best()
            } else {
                None
            }
        },
        None => None,
    }
}

#[verifier::loop_isolation(false)]
fn pick_thumbnail(sets: Option<Vec<ThumbnailSetDto>>) -> (r: Option<String>)
    ensures
        r == first_thumbnail(sets),
{
    match sets {
        Some(list) => {
            let ghost all = list@;
            let mut list = list;
            let mut taken: usize = 0;
            proof {
                assert(all.skip(0) =~= all);
                assert(all.len() == list.len());
            }
            while list.len() > 0
                invariant
                    list@ == all.skip(taken as int),
                    taken + list.len() == all.len(),
                    all.len() <= usize::MAX,
                    forall|j: int| 0 <= j < taken ==> !has_best()(#[trigger] all[j]),
                decreases list.len(),
            {
                let set = list.remove(0);
                proof {
                    assert(set == all[taken as int]);
                    assert(list@ =~= all.skip(taken + 1));
                }
                let best = set.best_url();
                if best.is_some() {
                    proof {
                        assert(has_best()(all[taken as int]));
                        crate::queue_model::lemma_first_index_is(all, has_best(), taken as int);
                    }
                    return best;
                }
                proof {
                    assert(!has_best()(all[taken as int]));
                }
                taken += 1;
            }
            proof {
                crate::queue_model::lemma_first_index_is(all, has_best(), taken as int);
            }
            None
        },
        None => None,
    }
}

/// The name shown for an item that has none.
pub open spec fn unnamed_text() -> Seq<char> {
    "(未命名)"@
}

/// The summary of an item as the remote side lists it.
pub open spec fn summary_of(value: DriveItemDto) -> DriveItemSummaryView {
    DriveItemSummaryView {
        id: value.id@,
        name: match value.name {
            Some(n) => n@,
            None => unnamed_text(),
        },
        size: value.size,
        is_folder: value.folder is Some,
        child_count: match value.folder {
            Some(f) => f.child_count,
            None => None,
        },
        mime_type: match value.file {
            Some(f) => opt_view(f.mime_type),
            None => None,
        },
        last_modified: opt_view(value.last_modified_date_time),
        thumbnail_url: opt_view(first_thumbnail(value.thumbnails)),
    }
}

/// Summarises an item of a listing: an item without name is shown as
/// unnamed, an item is a folder when it has the folder facet, and its
/// thumbnail is the first that has an address.
pub fn summary_from_item(value: DriveItemDto) -> (s: DriveItemSummary)
    ensures
        s@ == summary_of(value),
{
    let is_folder = value.folder.is_some();
    DriveItemSummary {
        id: value.id,
        name: match value.name {
            Some(n) => n,
            None => owned("(未命名)"),
        },
        size: value.size,
        is_folder,
        child_count: match value.folder {
            Some(f) => f.child_count,
            None => None,
        },
        mime_type: match value.file {
            Some(f) => f.mime_type,
            None => None,
        },
        last_modified: value.last_modified_date_time,
        thumbnail_url: pick_thumbnail(value.thumbnails),
    }
}

impl From<DriveItemDto> for DriveItemSummary {
    fn from(value: DriveItemDto) -> (s: DriveItemSummary)
        ensures
            s@ == summary_of(value),
    {
        summary_from_item(value)
    }
}

impl vstd::std_specs::convert::FromSpecImpl<DriveItemDto> for DriveItemSummary {
    open spec fn obeys_from_spec() -> bool {
        false
    }

    open spec fn from_spec(value: DriveItemDto) -> DriveItemSummary {
        arbitrary()
    }
}

/// The page that an answer of the remote side amounts to: its items
/// summarised in order, and the link to the next page.
pub fn page_from_response(payload: DriveChildrenResponse) -> (page: DrivePage)
    ensures
        page.items.deep_view() == Seq::new(
            payload.value@.len(),
            |i: int| summary_of(payload.value@[i]),
        ),
        page.next_link == payload.next_link,
{
    let ghost all = payload.value@;
    let mut rest = payload.value;
    let mut items: Vec<DriveItemSummary> = Vec::new();
    proof {
        assert(all.skip(0) =~= all);
    }
    while rest.len() > 0
        invariant
            rest@ == all.skip(items.len() as int),
            items.len() + rest.len() == all.len(),
            items.deep_view() == Seq::new(items.len() as nat, |i: int| summary_of(all[i])),
        decreases rest.len(),
    {
        let ghost before = items.deep_view();
        let ghost n = items.len();
        let item = rest.remove(0);
        proof {
            assert(item == all[n as int]);
            assert(rest@ =~= all.skip(n + 1));
        }
        items.push(summary_from_item(item));
        proof {
            assert(items.deep_view() =~= before.push(summary_of(all[n as int])));
            assert(items.deep_view() =~= Seq::new((n + 1) as nat, |i: int| summary_of(all[i])));
        }
    }
    DrivePage { items, next_link: payload.next_link }
}

/// The non-empty parts of `s` between the separators `sep`, in order.
pub open spec fn segments(s: Seq<char>, sep: char) -> Seq<Seq<char>>
    decreases s.len(),
{
    if s.len() == 0 {
        Seq::empty()
    } else {
        let cut = crate::text::position_of_char(s, sep);
        let rest = if 0 <= cut < s.len() {
            segments(s.skip(cut + 1), sep)
        } else {
            Seq::empty()
        };
        if cut == 0 {
            rest
        } else {
            seq![s.take(cut)] + rest
        }
    }
}

/// The percent-encoded segments of a path, joined by slashes.
pub open spec fn encoded_path(parts: Seq<Seq<char>>) -> Seq<char>
    decreases parts.len(),
{
    if parts.len() == 0 {
        Seq::empty()
    } else if parts.len() == 1 {
        percent_encoded(parts[0])
    } else {
        encoded_path(parts.drop_last()) + "/"@ + percent_encoded(parts.last())
    }
}

/// The address of the listing of the root folder.
pub open spec fn root_children_url() -> Seq<char> {
    GRAPH_BASE@ + "/me/drive/root/children"@ + thumbnail_query()
}

/// The address of the listing of the folder at `path`: that of the root
/// when the path is missing, blank or made of slashes only, and otherwise
/// that of the folder named by the non-empty segments of the path, each
/// percent-encoded.
pub open spec fn children_url_of(path: Option<Seq<char>>) -> Seq<char> {
    match path {
        Some(raw) => if is_blank(raw) || segments(raw, '/').len() == 0 {
            root_children_url()
        } else {
            GRAPH_BASE@ + "/me/drive/root:/"@ + encoded_path(segments(raw, '/')) + ":/children"@
                + thumbnail_query()
        },
        None => root_children_url(),
    }
}

/// Splits `s` at slashes and drops the empty parts.
fn path_segments(s: &str) -> (parts: Vec<String>)
    ensures
        parts.deep_view() == segments(s@, '/'),
{
    let n = s.unicode_len();
    let mut parts: Vec<String> = Vec::new();
    let mut start: usize = 0;
    proof {
        assert(s@.skip(0) =~= s@);
        assert(parts.deep_view() + segments(s@.skip(0), '/') =~= segments(s@, '/'));
    }
    while start < n
        invariant
            start <= n == s@.len(),
            parts.deep_view() + segments(s@.skip(start as int), '/') == segments(s@, '/'),
        decreases n - start,
    {
        let ghost rest = s@.skip(start as int);
        let ghost before = parts.deep_view();
        let mut end: usize = start;
        proof {
            assert(rest.skip(0) =~= rest);
        }
        while end < n && s.get_char(end) != '/'
            invariant
                start <= end <= n == s@.len(),
                rest == s@.skip(start as int),
                crate::text::position_of_char(rest, '/') == (end - start)
                    + crate::text::position_of_char(rest.skip(end - start), '/'),
            decreases n - end,
        {
            proof {
                let tail = rest.skip(end - start);
                assert(tail[0] == s@[end as int]);
                assert(tail.drop_first() =~= rest.skip(end - start + 1));
            }
            end += 1;
        }
        proof {
            let tail = rest.skip(end - start);
            if end < n {
                assert(tail[0] == s@[end as int]);
            } else {
                assert(tail =~= Seq::<char>::empty());
            }
            assert(crate::text::position_of_char(rest, '/') == end - start);
            assert(rest.take(end - start) =~= s@.subrange(start as int, end as int));
            if end < n {
                assert(rest.skip(end - start + 1) =~= s@.skip(end + 1));
            }
        }
        if end > start {
            parts.push(owned(s.substring_char(start, end)));
            proof {
                assert(parts.deep_view() =~= before.push(rest.take(end - start)));
            }
        }
        proof {
            let tail = if end < n {
                segments(s@.skip(end + 1), '/')
            } else {
                Seq::<Seq<char>>::empty()
            };
            if end > start {
                assert(before.push(rest.take(end - start)) + tail =~= before + (seq![
                    rest.take(end - start),
                ] + tail));
            }
        }
        if end < n {
            start = end + 1;
        } else {
            start = n;
            proof {
                assert(s@.skip(n as int) =~= Seq::<char>::empty());
                assert(parts.deep_view() + Seq::<Seq<char>>::empty() =~= parts.deep_view());
            }
        }
    }
    proof {
        assert(s@.skip(start as int) =~= Seq::<char>::empty());
        assert(parts.deep_view() + Seq::<Seq<char>>::empty() =~= parts.deep_view());
    }
    parts
}

fn encode_path(parts: &Vec<String>) -> (r: String)
    ensures
        r@ == encoded_path(parts.deep_view()),
{
    let mut r = String::new();
    let mut i: usize = 0;
    proof {
        assert(parts.deep_view().take(0) =~= Seq::<Seq<char>>::empty());
    }
    while i < parts.len()
        invariant
            i <= parts.len(),
            r@ == encoded_path(parts.deep_view().take(i as int)),
        decreases parts.len() - i,
    {
        proof {
            let all = parts.deep_view();
            assert(all.take(i + 1).drop_last() =~= all.take(i as int));
            assert(all.take(i + 1).last() == parts@[i as int]@);
            if i == 0 {
                assert(r@ + percent_encoded(parts@[0]@) =~= percent_encoded(parts@[0]@));
                assert(all.take(1)[0] == parts@[0]@);
            }
        }
        if i > 0 {
            r = r.concat("/");
        }
        r = r.concat(percent_encode(parts[i].as_str()).as_str());
        i += 1;
    }
    proof {
        assert(parts.deep_view().take(i as int) =~= parts.deep_view());
    }
    r
}

/// Builds the address of the listing of the folder at `path`.
pub fn build_children_url(path: Option<&str>) -> (r: String)
    ensures
        r@ == children_url_of(
            match path {
                Some(raw) => Some(raw@),
                None => None,
            },
        ),
{
    match path {
        Some(raw) => {
            if blank(raw) {
                return owned(GRAPH_BASE).concat("/me/drive/root/children").concat(
                    "?$select=id,name,size,lastModifiedDateTime,folder,file&$expand=thumbnails($select=small,medium)",
                );
            }
            let parts = path_segments(raw);
            if parts.len() == 0 {
                owned(GRAPH_BASE).concat("/me/drive/root/children").concat(
                    "?$select=id,name,size,lastModifiedDateTime,folder,file&$expand=thumbnails($select=small,medium)",
                )
            } else {
                owned(GRAPH_BASE).concat("/me/drive/root:/").concat(
                    encode_path(&parts).as_str(),
                ).concat(":/children").concat(
                    "?$select=id,name,size,lastModifiedDateTime,folder,file&$expand=thumbnails($select=small,medium)",
                )
            }
        },
        None => owned(GRAPH_BASE).concat("/me/drive/root/children").concat(
            "?$select=id,name,size,lastModifiedDateTime,folder,file&$expand=thumbnails($select=small,medium)",
        ),
    }
}

/// The address from which a listing is fetched: the link to the next page
/// if there is one, else the listing of the folder with the given id, else
/// the listing of the folder at the given path.
pub fn children_request_url(
    folder_id: Option<String>,
    folder_path: Option<String>,
    next_link: Option<String>,
) -> (r: String)
    ensures
        r@ == match next_link {
            Some(link) => link@,
            None => match folder_id {
                Some(id) => GRAPH_BASE@ + "/me/drive/items/"@ + id@ + "/children"@
                    + thumbnail_query(),
                None => children_url_of(opt_view(folder_path)),
            },
        },
{
    if let Some(link) = next_link {
        return link;
    }
    if let Some(id) = folder_id {
        return owned(GRAPH_BASE).concat("/me/drive/items/").concat(id.as_str()).concat(
            "/children",
        ).concat(
            "?$select=id,name,size,lastModifiedDateTime,folder,file&$expand=thumbnails($select=small,medium)",
        );
    }
    match folder_path {
        Some(path) => build_children_url(Some(path.as_str())),
        None => build_children_url(None),
    }
}

/// Judges the answer to a listing by its status.
pub fn children_outcome(code: u16, shown: &str) -> (r: Result<(), String>)
    ensures
        match failure_of(code, shown@, plain_texts("graph api returned HTTP "@, ""@)) {
            Some(text) => r is Err && r->Err_0@ == text,
            None => r is Ok,
        },
{
    check_plain_status(code, shown, "graph api returned HTTP ", "")
}

} // verus!
