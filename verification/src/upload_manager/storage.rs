//! Persistence of the upload queue: the store interface, the conversion
//! between tasks and rows, and a store that lives in memory.

use vstd::prelude::*;

use crate::clock::current_timestamp;
use crate::db::{loaded_size, opt_i64_to_u64, opt_u64_to_i64, stored_size, UploadTaskRecord};
use crate::models::{UploadStatus, UploadTask, UploadTaskView};
use crate::queue_model::{
    first_index, key_is, lemma_filter_skip_step, removals, upserts, without_key,
    StoreCall, StoreRequest,
};
use crate::sorting::{sort_by_rank, sorted_by_rank, Ranked, SortKey};
use crate::task_sets::without_keys;
use crate::text::opt_view;
use crate::upload_manager::restore::running;
use crate::upload_manager::state::{drop_id, position_of};

verus! {

/// Where the upload queue keeps its rows. A store may fail; it then keeps
/// the failure to itself, and the next write that succeeds brings the row
/// up to date.
pub trait UploadStore {
    /// All rows, oldest start first.
    fn load(&mut self) -> Vec<UploadTask>;

    /// Writes the row of `task`, in place of an earlier row under its key.
    fn upsert(&mut self, task: &UploadTask);

    /// Deletes the row under this key.
    fn remove(&mut self, task_id: &str);

    /// Deletes the rows of all uploads that are not in progress.
    fn clear_history(&mut self);
}

/// The integer under which a status is stored.
pub open spec fn status_code(status: UploadStatus) -> i64 {
    match status {
        UploadStatus::InProgress => 0,
        UploadStatus::Completed => 1,
        UploadStatus::Failed => 2,
        UploadStatus::Cancelled => 3,
    }
}

/// The status that a stored integer stands for; an unknown integer is read
/// as "in progress".
pub open spec fn status_of_code(code: i64) -> UploadStatus {
    if code == 1 {
        UploadStatus::Completed
    } else if code == 2 {
        UploadStatus::Failed
    } else if code == 3 {
        UploadStatus::Cancelled
    } else {
        UploadStatus::InProgress
    }
}

/// Encodes a status for storing.
pub fn status_to_i64(status: &UploadStatus) -> (code: i64)
    ensures
        code == status_code(*status),
{
    match status {
        UploadStatus::InProgress => 0,
        UploadStatus::Completed => 1,
        UploadStatus::Failed => 2,
        UploadStatus::Cancelled => 3,
    }
}

/// Decodes a stored status.
pub fn status_from_i64(value: i64) -> (status: UploadStatus)
    ensures
        status == status_of_code(value),
{
    if value == 1 {
        UploadStatus::Completed
    } else if value == 2 {
        UploadStatus::Failed
    } else if value == 3 {
        UploadStatus::Cancelled
    } else {
        UploadStatus::InProgress
    }
}

/// The task that a row stands for.
pub open spec fn task_of_record(r: UploadTaskRecord) -> UploadTaskView {
    UploadTaskView {
        task_id: r.task_id@,
        file_name: r.file_name@,
        local_path: r.local_path@,
        size: loaded_size(r.size),
        mime_type: opt_view(r.mime_type),
        parent_id: opt_view(r.parent_id),
        remote_id: opt_view(r.remote_id),
        status: status_of_code(r.status),
        started_at: r.started_at,
        completed_at: r.completed_at,
        bytes_uploaded: loaded_size(r.bytes_uploaded),
        error_message: opt_view(r.error_message),
        session_url: opt_view(r.session_url),
    }
}

/// A task as it comes back from the store: sizes beyond the signed range
/// are lost, all else stands.
pub open spec fn as_stored(t: UploadTaskView) -> UploadTaskView {
    UploadTaskView {
        size: loaded_size(stored_size(t.size)),
        bytes_uploaded: loaded_size(stored_size(t.bytes_uploaded)),
        ..t
    }
}

/// Whether `r` is the row of the task `t`: every field as the task has
/// it, the status under its code and the sizes as the store holds them.
pub open spec fn is_row_of(r: UploadTaskRecord, t: UploadTaskView) -> bool {
    &&& r.task_id@ == t.task_id
    &&& r.file_name@ == t.file_name
    &&& r.local_path@ == t.local_path
    &&& r.size == stored_size(t.size)
    &&& opt_view(r.mime_type) == t.mime_type
    &&& opt_view(r.parent_id) == t.parent_id
    &&& opt_view(r.remote_id) == t.remote_id
    &&& r.status == status_code(t.status)
    &&& r.started_at == t.started_at
    &&& r.completed_at == t.completed_at
    &&& r.bytes_uploaded == stored_size(t.bytes_uploaded)
    &&& opt_view(r.error_message) == t.error_message
    &&& opt_view(r.session_url) == t.session_url
}

/// The row of a task, stamped with the given time of writing.
pub fn record_from_task_at(task: &UploadTask, updated_at_millis: i64) -> (r: UploadTaskRecord)
    ensures
        is_row_of(r, task@),
        task_of_record(r) == as_stored(task@),
        r.updated_at_millis == updated_at_millis,
{
    UploadTaskRecord {
        task_id: task.task_id.clone(),
        file_name: task.file_name.clone(),
        local_path: task.local_path.clone(),
        size: opt_u64_to_i64(task.size),
        mime_type: task.mime_type.clone(),
        parent_id: task.parent_id.clone(),
        remote_id: task.remote_id.clone(),
        status: status_to_i64(&task.status),
        started_at: task.started_at,
        completed_at: task.completed_at,
        bytes_uploaded: opt_u64_to_i64(task.bytes_uploaded),
        error_message: task.error_message.clone(),
        session_url: task.session_url.clone(),
        updated_at_millis,
    }
}

/// The row of a task, stamped with the current time.
pub fn record_from_task(task: &UploadTask) -> (r: UploadTaskRecord)
    ensures
        is_row_of(r, task@),
        task_of_record(r) == as_stored(task@),
{
    record_from_task_at(task, current_timestamp())
}

/// The task of a row.
pub fn task_from_record(record: UploadTaskRecord) -> (task: UploadTask)
    ensures
        task@ == task_of_record(record),
{
    UploadTask {
        task_id: record.task_id,
        file_name: record.file_name,
        local_path: record.local_path,
        size: opt_i64_to_u64(record.size),
        mime_type: record.mime_type,
        parent_id: record.parent_id,
        remote_id: record.remote_id,
        status: status_from_i64(record.status),
        started_at: record.started_at,
        completed_at: record.completed_at,
        bytes_uploaded: opt_i64_to_u64(record.bytes_uploaded),
        error_message: record.error_message,
        session_url: record.session_url,
    }
}

/// A task whose sizes lie within the signed range comes back from its row
/// unchanged.
pub proof fn lemma_row_round_trip(t: UploadTaskView)
    requires
        t.size is Some ==> t.size->0 <= i64::MAX as u64,
        t.bytes_uploaded is Some ==> t.bytes_uploaded->0 <= i64::MAX as u64,
    ensures
        as_stored(t) == t,
{
}

/// The rows of a store as a value, with one row per id.
pub open spec fn rows_upserted(rows: Seq<UploadTaskView>, task: UploadTaskView) -> Seq<
    UploadTaskView,
> {
    let pos = first_index(rows, key_is::<UploadTaskView>(task.task_id));
    if pos < rows.len() {
        rows.update(pos, task)
    } else {
        rows.push(task)
    }
}

/// The rows that are left when history is cleared: those in progress.
pub open spec fn rows_unfinished(rows: Seq<UploadTaskView>) -> Seq<UploadTaskView> {
    rows.filter(running())
}

/// The requests to write each of `tasks`, in order.
pub fn upsert_calls(tasks: &Vec<UploadTask>) -> (calls: Vec<StoreCall<UploadTask>>)
    ensures
        calls.deep_view() == upserts(tasks.deep_view()),
{
    let ghost all = tasks.deep_view();
    let mut calls: Vec<StoreCall<UploadTask>> = Vec::new();
    let mut i: usize = 0;
    proof {
        assert(calls.deep_view() =~= upserts(all.take(0)));
    }
    while i < tasks.len()
        invariant
            i <= tasks.len(),
            all == tasks.deep_view(),
            calls.deep_view() == upserts(all.take(i as int)),
        decreases tasks.len() - i,
    {
        let ghost before = calls.deep_view();
        calls.push(StoreCall::Upsert(tasks[i].clone()));
        proof {
            assert(all[i as int] == tasks@[i as int]@);
            assert(calls.deep_view() =~= before.push(StoreRequest::Upsert(all[i as int])));
            assert(upserts(all.take(i + 1)) =~= before.push(StoreRequest::Upsert(all[i as int])));
        }
        i += 1;
    }
    proof {
        assert(all.take(i as int) =~= all);
    }
    calls
}

/// What a store that does as it is asked holds after a request.
pub open spec fn rows_after(rows: Seq<UploadTaskView>, request: StoreRequest<UploadTaskView>) -> Seq<
    UploadTaskView,
> {
    match request {
        StoreRequest::Upsert(task) => rows_upserted(rows, task),
        StoreRequest::Remove(key) => without_key(rows, key),
        StoreRequest::ClearHistory => rows_unfinished(rows),
    }
}

/// What a store that does as it is asked holds after a run of requests.
pub open spec fn rows_replayed(
    rows: Seq<UploadTaskView>,
    requests: Seq<StoreRequest<UploadTaskView>>,
) -> Seq<UploadTaskView>
    decreases requests.len(),
{
    if requests.len() == 0 {
        rows
    } else {
        rows_after(rows_replayed(rows, requests.drop_last()), requests.last())
    }
}

/// After a single request the store holds what the request asks for.
pub proof fn lemma_replay_one(rows: Seq<UploadTaskView>, request: StoreRequest<UploadTaskView>)
    ensures
        rows_replayed(rows, seq![request]) == rows_after(rows, request),
{
    reveal_with_fuel(rows_replayed, 2);
    assert(seq![request].drop_last() =~= Seq::<StoreRequest<UploadTaskView>>::empty());
}

/// After one more request the store holds what the request makes of what
/// it held before.
pub proof fn lemma_replay_push(
    rows: Seq<UploadTaskView>,
    requests: Seq<StoreRequest<UploadTaskView>>,
    request: StoreRequest<UploadTaskView>,
)
    ensures
        rows_replayed(rows, requests.push(request)) == rows_after(
            rows_replayed(rows, requests),
            request,
        ),
{
    assert(requests.push(request).drop_last() =~= requests);
}

/// Deleting rows key by key leaves the rows under the other keys.
pub proof fn lemma_replay_removals(rows: Seq<UploadTaskView>, keys: Seq<Seq<char>>)
    ensures
        rows_replayed(rows, removals::<UploadTaskView>(keys)) == without_keys(rows, keys),
    decreases keys.len(),
{
    if keys.len() > 0 {
        lemma_replay_removals(rows, keys.drop_last());
        assert(removals::<UploadTaskView>(keys).drop_last() =~= removals::<UploadTaskView>(
            keys.drop_last(),
        ));
    }
}

/// An upload store that keeps its rows in memory.
pub struct MemoryUploadStore {
    rows: Vec<UploadTask>,
}

impl View for MemoryUploadStore {
    type V = Seq<UploadTaskView>;

    closed spec fn view(&self) -> Seq<UploadTaskView> {
        self.rows.deep_view()
    }
}

impl MemoryUploadStore {
    /// A store without rows.
    pub fn new() -> (s: Self)
        ensures
            s@ == Seq::<UploadTaskView>::empty(),
    {
        let s = MemoryUploadStore { rows: Vec::new() };
        proof {
            assert(s@ =~= Seq::<UploadTaskView>::empty());
        }
        s
    }

    /// A store that holds the given rows.
    pub fn with_rows(rows: Vec<UploadTask>) -> (s: Self)
        ensures
            s@ == rows.deep_view(),
    {
        MemoryUploadStore { rows }
    }

    /// The rows in the order in which they were first written.
    pub fn rows(&self) -> (rows: Vec<UploadTask>)
        ensures
            rows.deep_view() == self@,
    {
        self.rows.clone()
    }

    /// All rows, oldest start first; rows of equal start in the order in
    /// which they were first written.
    pub fn load_rows(&self) -> (rows: Vec<UploadTask>)
        ensures
            rows.deep_view() == sorted_by_rank(self@, UploadTask::rank(SortKey::Started)),
    {
        let mut rows = self.rows.clone();
        sort_by_rank(&mut rows, SortKey::Started);
        rows
    }

    /// Writes the row of `task`, in place of the first row with its id.
    pub fn upsert_row(&mut self, task: &UploadTask)
        ensures
            final(self)@ == rows_upserted(old(self)@, task@),
    {
        match position_of(&self.rows, task.task_id.as_str()) {
            Some(pos) => {
                self.rows.set(pos, task.clone());
                proof {
                    assert(self.rows.deep_view() =~= old(self)@.update(pos as int, task@));
                }
            },
            None => {
                self.rows.push(task.clone());
                proof {
                    assert(self.rows.deep_view() =~= old(self)@.push(task@));
                }
            },
        }
    }

    /// Deletes the rows with this id.
    pub fn remove_row(&mut self, task_id: &str)
        ensures
            final(self)@ == without_key(old(self)@, task_id@),
    {
        drop_id(&mut self.rows, task_id);
    }

    /// Deletes the rows of all uploads that are not in progress.
    pub fn clear_finished(&mut self)
        ensures
            final(self)@ == rows_unfinished(old(self)@),
    {
        let ghost p = running();
        let ghost orig = self.rows.deep_view();
        let mut i: usize = 0;
        proof {
            assert(orig.skip(0) =~= orig);
            assert(orig.take(0) + orig.filter(p) =~= orig.filter(p));
        }
        while i < self.rows.len()
            invariant
                i <= self.rows.len(),
                p == running(),
                orig.filter(p) == self.rows.deep_view().take(i as int) + self.rows.deep_view().skip(
                    i as int,
                ).filter(p),
            decreases self.rows.len() - i,
        {
            let ghost before = self.rows.deep_view();
            proof {
                lemma_filter_skip_step(before, p, i as int);
            }
            let unfinished = match self.rows[i].status {
                UploadStatus::InProgress => true,
                _ => false,
            };
            if !unfinished {
                self.rows.remove(i);
                proof {
                    assert(self.rows.deep_view().take(i as int) =~= before.take(i as int));
                    assert(self.rows.deep_view().skip(i as int) =~= before.skip(i + 1));
                }
            } else {
                proof {
                    assert(before.take(i + 1) + before.skip(i + 1).filter(p) =~= before.take(
                        i as int,
                    ) + (seq![before[i as int]] + before.skip(i + 1).filter(p)));
                }
                i += 1;
            }
        }
        proof {
            let now = self.rows.deep_view();
            assert(now.skip(i as int) =~= Seq::<UploadTaskView>::empty());
            reveal_with_fuel(Seq::filter, 1);
            assert(now.take(i as int) + now.skip(i as int).filter(p) =~= now);
        }
    }

    /// Does what one request asks.
    pub fn serve(&mut self, call: &StoreCall<UploadTask>)
        ensures
            final(self)@ == rows_after(old(self)@, call.deep_view()),
    {
        match call {
            StoreCall::Upsert(task) => self.upsert_row(task),
            StoreCall::Remove(key) => self.remove_row(key.as_str()),
            StoreCall::ClearHistory => self.clear_finished(),
        }
    }
}

impl UploadStore for MemoryUploadStore {
    fn load(&mut self) -> (rows: Vec<UploadTask>)
        ensures
            rows.deep_view() == sorted_by_rank(old(self)@, UploadTask::rank(SortKey::Started)),
            final(self)@ == old(self)@,
    {
        self.load_rows()
    }

    fn upsert(&mut self, task: &UploadTask)
        ensures
            final(self)@ == rows_upserted(old(self)@, task@),
    {
        self.upsert_row(task)
    }

    fn remove(&mut self, task_id: &str)
        ensures
            final(self)@ == without_key(old(self)@, task_id@),
    {
        self.remove_row(task_id)
    }

    fn clear_history(&mut self)
        ensures
            final(self)@ == rows_unfinished(old(self)@),
    {
        self.clear_finished()
    }
}

} // verus!
