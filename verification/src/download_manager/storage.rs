//! Persistence of the download queue: the store interface, the conversion
//! between tasks and rows, and a store that lives in memory.

use vstd::prelude::*;

use crate::clock::current_timestamp;
use crate::db::{loaded_size, opt_i64_to_u64, opt_u64_to_i64, stored_size, DownloadTaskRecord};
use crate::download_manager::restore::running;
use crate::download_manager::state::{drop_id, position_of};
use crate::models::{
    DownloadStatus, DownloadTask, DownloadTaskView, DriveItemSummary, DriveItemSummaryView,
};
use crate::queue_model::{
    first_index, key_is, lemma_filter_skip_step, removals, upserts, without_key,
    StoreCall, StoreRequest,
};
use crate::sorting::{sort_by_rank, sorted_by_rank, Ranked, SortKey};
use crate::task_sets::without_keys;
use crate::text::opt_view;

verus! {

/// Where the download queue keeps its rows. A store may fail; it then
/// keeps the failure to itself, and the next write that succeeds brings
/// the row up to date.
pub trait DownloadStore {
    /// All rows, oldest start first.
    fn load(&mut self) -> Vec<DownloadTask>;

    /// Writes the row of `task`, in place of an earlier row under its key.
    fn upsert(&mut self, task: &DownloadTask);

    /// Deletes the row under this key.
    fn remove(&mut self, item_id: &str);

    /// Deletes the rows of all downloads that are not in progress.
    fn clear_history(&mut self);
}

/// The integer under which a status is stored.
pub open spec fn status_code(status: DownloadStatus) -> i64 {
    match status {
        DownloadStatus::InProgress => 0,
        DownloadStatus::Completed => 1,
        DownloadStatus::Failed => 2,
    }
}

/// The status that a stored integer stands for; an unknown integer is read
/// as "in progress".
pub open spec fn status_of_code(code: i64) -> DownloadStatus {
    if code == 1 {
        DownloadStatus::Completed
    } else if code == 2 {
        DownloadStatus::Failed
    } else {
        DownloadStatus::InProgress
    }
}

/// Encodes a status for storing.
pub fn status_to_i64(status: &DownloadStatus) -> (code: i64)
    ensures
        code == status_code(*status),
{
    match status {
        DownloadStatus::InProgress => 0,
        DownloadStatus::Completed => 1,
        DownloadStatus::Failed => 2,
    }
}

/// Decodes a stored status.
pub fn status_from_i64(value: i64) -> (status: DownloadStatus)
    ensures
        status == status_of_code(value),
{
    if value == 1 {
        DownloadStatus::Completed
    } else if value == 2 {
        DownloadStatus::Failed
    } else {
        DownloadStatus::InProgress
    }
}

/// The task that a row stands for.
pub open spec fn task_of_record(r: DownloadTaskRecord) -> DownloadTaskView {
    DownloadTaskView {
        item: DriveItemSummaryView {
            id: r.item_id@,
            name: r.item_name@,
            size: loaded_size(r.size),
            is_folder: r.is_folder,
            child_count: r.child_count,
            mime_type: opt_view(r.mime_type),
            last_modified: opt_view(r.last_modified),
            thumbnail_url: opt_view(r.thumbnail_url),
        },
        status: status_of_code(r.status),
        started_at: r.started_at,
        completed_at: r.completed_at,
        saved_path: opt_view(r.saved_path),
        size_label: loaded_size(r.size_label),
        bytes_downloaded: loaded_size(r.bytes_downloaded),
        error_message: opt_view(r.error_message),
    }
}

/// A task as it comes back from the store: sizes beyond the signed range
/// are lost, all else stands.
pub open spec fn as_stored(t: DownloadTaskView) -> DownloadTaskView {
    DownloadTaskView {
        item: DriveItemSummaryView { size: loaded_size(stored_size(t.item.size)), ..t.item },
        size_label: loaded_size(stored_size(t.size_label)),
        bytes_downloaded: loaded_size(stored_size(t.bytes_downloaded)),
        ..t
    }
}

/// Whether `r` is the row of the task `t`: every field as the task has
/// it, the status under its code and the sizes as the store holds them.
pub open spec fn is_row_of(r: DownloadTaskRecord, t: DownloadTaskView) -> bool {
    &&& r.item_id@ == t.item.id
    &&& r.item_name@ == t.item.name
    &&& r.size == stored_size(t.item.size)
    &&& r.is_folder == t.item.is_folder
    &&& r.child_count == t.item.child_count
    &&& opt_view(r.mime_type) == t.item.mime_type
    &&& opt_view(r.last_modified) == t.item.last_modified
    &&& opt_view(r.thumbnail_url) == t.item.thumbnail_url
    &&& r.status == status_code(t.status)
    &&& r.started_at == t.started_at
    &&& r.completed_at == t.completed_at
    &&& opt_view(r.saved_path) == t.saved_path
    &&& r.size_label == stored_size(t.size_label)
    &&& r.bytes_downloaded == stored_size(t.bytes_downloaded)
    &&& opt_view(r.error_message) == t.error_message
}

/// The row of a task, stamped with the given time of writing.
pub fn record_from_task_at(task: &DownloadTask, updated_at_millis: i64) -> (r:
    DownloadTaskRecord)
    ensures
        is_row_of(r, task@),
        task_of_record(r) == as_stored(task@),
        r.updated_at_millis == updated_at_millis,
{
    DownloadTaskRecord {
        item_id: task.item.id.clone(),
        item_name: task.item.name.clone(),
        size: opt_u64_to_i64(task.item.size),
        is_folder: task.item.is_folder,
        child_count: task.item.child_count,
        mime_type: task.item.mime_type.clone(),
        last_modified: task.item.last_modified.clone(),
        thumbnail_url: task.item.thumbnail_url.clone(),
        status: status_to_i64(&task.status),
        started_at: task.started_at,
        completed_at: task.completed_at,
        saved_path: task.saved_path.clone(),
        size_label: opt_u64_to_i64(task.size_label),
        bytes_downloaded: opt_u64_to_i64(task.bytes_downloaded),
        error_message: task.error_message.clone(),
        updated_at_millis,
    }
}

/// The row of a task, stamped with the current time.
pub fn record_from_task(task: &DownloadTask) -> (r: DownloadTaskRecord)
    ensures
        is_row_of(r, task@),
        task_of_record(r) == as_stored(task@),
{
    record_from_task_at(task, current_timestamp())
}

/// The task of a row.
pub fn task_from_record(record: DownloadTaskRecord) -> (task: DownloadTask)
    ensures
        task@ == task_of_record(record),
{
    DownloadTask {
        item: DriveItemSummary {
            id: record.item_id,
            name: record.item_name,
            size: opt_i64_to_u64(record.size),
            is_folder: record.is_folder,
            child_count: record.child_count,
            mime_type: record.mime_type,
            last_modified: record.last_modified,
            thumbnail_url: record.thumbnail_url,
        },
        status: status_from_i64(record.status),
        started_at: record.started_at,
        completed_at: record.completed_at,
        saved_path: record.saved_path,
        size_label: opt_i64_to_u64(record.size_label),
        bytes_downloaded: opt_i64_to_u64(record.bytes_downloaded),
        error_message: record.error_message,
    }
}

/// A task whose sizes lie within the signed range comes back from its row
/// unchanged.
pub proof fn lemma_row_round_trip(t: DownloadTaskView)
    requires
        t.item.size is Some ==> t.item.size->0 <= i64::MAX as u64,
        t.size_label is Some ==> t.size_label->0 <= i64::MAX as u64,
        t.bytes_downloaded is Some ==> t.bytes_downloaded->0 <= i64::MAX as u64,
    ensures
        as_stored(t) == t,
{
}

/// The rows of a store after the row of `task` was written.
pub open spec fn rows_upserted(rows: Seq<DownloadTaskView>, task: DownloadTaskView) -> Seq<
    DownloadTaskView,
> {
    let pos = first_index(rows, key_is::<DownloadTaskView>(task.item.id));
    if pos < rows.len() {
        rows.update(pos, task)
    } else {
        rows.push(task)
    }
}

/// The rows that are left when history is cleared: those in progress.
pub open spec fn rows_unfinished(rows: Seq<DownloadTaskView>) -> Seq<DownloadTaskView> {
    rows.filter(running())
}

/// The requests to write each of `tasks`, in order.
pub fn upsert_calls(tasks: &Vec<DownloadTask>) -> (calls: Vec<StoreCall<DownloadTask>>)
    ensures
        calls.deep_view() == upserts(tasks.deep_view()),
{
    let ghost all = tasks.deep_view();
    let mut calls: Vec<StoreCall<DownloadTask>> = Vec::new();
    let mut i: usize = 0;
    proof {
        assert(calls.deep_view() =~= upserts(all.take(0)));
    }
    while i < tasks.len()
        invariant
            i <= tasks.len(),
            all == tasks.deep_view(),
            calls.deep_view() == upserts(all.take(i as int)),
        decreases tasks.len() - i,
    {
        let ghost before = calls.deep_view();
        calls.push(StoreCall::Upsert(tasks[i].clone()));
        proof {
            assert(all[i as int] == tasks@[i as int]@);
            assert(calls.deep_view() =~= before.push(StoreRequest::Upsert(all[i as int])));
            assert(upserts(all.take(i + 1)) =~= before.push(StoreRequest::Upsert(all[i as int])));
        }
        i += 1;
    }
    proof {
        assert(all.take(i as int) =~= all);
    }
    calls
}

/// What a store that does as it is asked holds after a request.
pub open spec fn rows_after(rows: Seq<DownloadTaskView>, request: StoreRequest<DownloadTaskView>) -> Seq<
    DownloadTaskView,
> {
    match request {
        StoreRequest::Upsert(task) => rows_upserted(rows, task),
        StoreRequest::Remove(key) => without_key(rows, key),
        StoreRequest::ClearHistory => rows_unfinished(rows),
    }
}

/// What a store that does as it is asked holds after a run of requests.
pub open spec fn rows_replayed(
    rows: Seq<DownloadTaskView>,
    requests: Seq<StoreRequest<DownloadTaskView>>,
) -> Seq<DownloadTaskView>
    decreases requests.len(),
{
    if requests.len() == 0 {
        rows
    } else {
        rows_after(rows_replayed(rows, requests.drop_last()), requests.last())
    }
}

/// After a single request the store holds what the request asks for.
pub proof fn lemma_replay_one(rows: Seq<DownloadTaskView>, request: StoreRequest<DownloadTaskView>)
    ensures
        rows_replayed(rows, seq![request]) == rows_after(rows, request),
{
    reveal_with_fuel(rows_replayed, 2);
    assert(seq![request].drop_last() =~= Seq::<StoreRequest<DownloadTaskView>>::empty());
}

/// Deleting rows key by key leaves the rows under the other keys.
pub proof fn lemma_replay_removals(rows: Seq<DownloadTaskView>, keys: Seq<Seq<char>>)
    ensures
        rows_replayed(rows, removals::<DownloadTaskView>(keys)) == without_keys(rows, keys),
    decreases keys.len(),
{
    if keys.len() > 0 {
        lemma_replay_removals(rows, keys.drop_last());
        assert(removals::<DownloadTaskView>(keys).drop_last() =~= removals::<DownloadTaskView>(
            keys.drop_last(),
        ));
    }
}

/// A download store that keeps its rows in memory.
pub struct MemoryDownloadStore {
    rows: Vec<DownloadTask>,
}

impl View for MemoryDownloadStore {
    type V = Seq<DownloadTaskView>;

    closed spec fn view(&self) -> Seq<DownloadTaskView> {
        self.rows.deep_view()
    }
}

impl MemoryDownloadStore {
    /// A store without rows.
    pub fn new() -> (s: Self)
        ensures
            s@ == Seq::<DownloadTaskView>::empty(),
    {
        let s = MemoryDownloadStore { rows: Vec::new() };
        proof {
            assert(s@ =~= Seq::<DownloadTaskView>::empty());
        }
        s
    }

    /// A store that holds the given rows.
    pub fn with_rows(rows: Vec<DownloadTask>) -> (s: Self)
        ensures
            s@ == rows.deep_view(),
    {
        MemoryDownloadStore { rows }
    }

    /// The rows in the order in which they were first written.
    pub fn rows(&self) -> (rows: Vec<DownloadTask>)
        ensures
            rows.deep_view() == self@,
    {
        self.rows.clone()
    }

    /// All rows, oldest start first; rows of equal start in the order in
    /// which they were first written.
    pub fn load_rows(&self) -> (rows: Vec<DownloadTask>)
        ensures
            rows.deep_view() == sorted_by_rank(self@, DownloadTask::rank(SortKey::Started)),
    {
        let mut rows = self.rows.clone();
        sort_by_rank(&mut rows, SortKey::Started);
        rows
    }

    /// Writes the row of `task`, in place of the first row of its item.
    pub fn upsert_row(&mut self, task: &DownloadTask)
        ensures
            final(self)@ == rows_upserted(old(self)@, task@),
    {
        match position_of(&self.rows, task.item.id.as_str()) {
            Some(pos) => {
                self.rows.set(pos, task.clone());
                proof {
                    assert(self.rows.deep_view() =~= old(self)@.update(pos as int, task@));
                }
            },
            None => {
                self.rows.push(task.clone());
                proof {
                    assert(self.rows.deep_view() =~= old(self)@.push(task@));
                }
            },
        }
    }

    /// Deletes the rows of this item.
    pub fn remove_row(&mut self, item_id: &str)
        ensures
            final(self)@ == without_key(old(self)@, item_id@),
    {
        drop_id(&mut self.rows, item_id);
    }

    /// Deletes the rows of all downloads that are not in progress.
    pub fn clear_finished(&mut self)
        ensures
            final(self)@ == rows_unfinished(old(self)@),
    {
        let ghost p = running();
        let ghost orig = self.rows.deep_view();
        let mut i: usize = 0;
        proof {
            assert(orig.skip(0) =~= orig);
            assert(orig.take(0) + orig.filter(p) =~= orig.filter(p));
        }
        while i < self.rows.len()
            invariant
                i <= self.rows.len(),
                p == running(),
                orig.filter(p) == self.rows.deep_view().take(i as int) + self.rows.deep_view().skip(
                    i as int,
                ).filter(p),
            decreases self.rows.len() - i,
        {
            let ghost before = self.rows.deep_view();
            proof {
                lemma_filter_skip_step(before, p, i as int);
            }
            let unfinished = match self.rows[i].status {
                DownloadStatus::InProgress => true,
                _ => false,
            };
            if !unfinished {
                self.rows.remove(i);
                proof {
                    assert(self.rows.deep_view().take(i as int) =~= before.take(i as int));
                    assert(self.rows.deep_view().skip(i as int) =~= before.skip(i + 1));
                }
            } else {
                proof {
                    assert(before.take(i + 1) + before.skip(i + 1).filter(p) =~= before.take(
                        i as int,
                    ) + (seq![before[i as int]] + before.skip(i + 1).filter(p)));
                }
                i += 1;
            }
        }
        proof {
            let now = self.rows.deep_view();
            assert(now.skip(i as int) =~= Seq::<DownloadTaskView>::empty());
            reveal_with_fuel(Seq::filter, 1);
            assert(now.take(i as int) + now.skip(i as int).filter(p) =~= now);
        }
    }

    /// Does what one request asks.
    pub fn serve(&mut self, call: &StoreCall<DownloadTask>)
        ensures
            final(self)@ == rows_after(old(self)@, call.deep_view()),
    {
        match call {
            StoreCall::Upsert(task) => self.upsert_row(task),
            StoreCall::Remove(key) => self.remove_row(key.as_str()),
            StoreCall::ClearHistory => self.clear_finished(),
        }
    }
}

impl DownloadStore for MemoryDownloadStore {
    fn load(&mut self) -> (rows: Vec<DownloadTask>)
        ensures
            rows.deep_view() == sorted_by_rank(old(self)@, DownloadTask::rank(SortKey::Started)),
            final(self)@ == old(self)@,
    {
        self.load_rows()
    }

    fn upsert(&mut self, task: &DownloadTask)
        ensures
            final(self)@ == rows_upserted(old(self)@, task@),
    {
        self.upsert_row(task)
    }

    fn remove(&mut self, item_id: &str)
        ensures
            final(self)@ == without_key(old(self)@, item_id@),
    {
        self.remove_row(item_id)
    }

    fn clear_history(&mut self)
        ensures
            final(self)@ == rows_unfinished(old(self)@),
    {
        self.clear_finished()
    }
}

} // verus!
