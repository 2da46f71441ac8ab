//! The upload queue as a value: what each operation of the manager does to
//! the three task sequences, stated over their views.

use vstd::prelude::*;

use crate::errors::QueueError;
use crate::models::{QueueView, UploadStatus, UploadTaskView};
use crate::queue_model::{
    first_index, key_is, lemma_count_empty, lemma_count_filter, lemma_count_insert_front,
    lemma_count_positive, lemma_count_push, lemma_count_remove, lemma_count_update,
    lemma_count_without, lemma_filter_elements, lemma_first_index, key_is_not, without_key,
    TaskRecord,
};
use crate::text::is_blank;

verus! {

impl TaskRecord for UploadTaskView {
    open spec fn key(self) -> Seq<char> {
        self.task_id
    }
}

/// The text with which the worker of a cancelled upload ends, and which is
/// recorded on the task.
pub const CANCELLED_UPLOAD_MESSAGE: &'static str = "upload cancelled";

/// The error text recorded on a cancelled upload.
pub open spec fn cancelled_message() -> Seq<char> {
    CANCELLED_UPLOAD_MESSAGE@
}

/// Whether `t` uploads a file of this name into this folder.
pub open spec fn same_target(t: UploadTaskView, name: Seq<char>, parent: Option<Seq<char>>)
    -> bool {
    t.file_name == name && t.parent_id == parent
}

/// The tasks that stand in the way of a new upload: those with its id and
/// those with its name and folder.
pub open spec fn conflicts_with(id: Seq<char>, name: Seq<char>, parent: Option<Seq<char>>)
    -> spec_fn(UploadTaskView) -> bool {
    |t: UploadTaskView| t.task_id == id || same_target(t, name, parent)
}

/// The complement of [`conflicts_with`].
pub open spec fn clear_of(id: Seq<char>, name: Seq<char>, parent: Option<Seq<char>>)
    -> spec_fn(UploadTaskView) -> bool {
    |t: UploadTaskView| !(t.task_id == id || same_target(t, name, parent))
}

/// The record of an upload that has just been accepted.
pub open spec fn fresh_upload(
    id: Seq<char>,
    parent: Option<Seq<char>>,
    name: Seq<char>,
    path: Seq<char>,
    size: u64,
    now: i64,
) -> UploadTaskView {
    UploadTaskView {
        task_id: id,
        file_name: name,
        local_path: path,
        size: Some(size),
        mime_type: None,
        parent_id: parent,
        remote_id: None,
        status: UploadStatus::InProgress,
        started_at: now,
        completed_at: None,
        bytes_uploaded: Some(0),
        error_message: None,
        session_url: None,
    }
}

/// Why the queue `q` refuses the upload, if it does: a blank name, a blank
/// path, or a running task in its way.
pub open spec fn enqueue_rejection(
    q: QueueView<UploadTaskView>,
    id: Seq<char>,
    parent: Option<Seq<char>>,
    name: Seq<char>,
    path: Seq<char>,
) -> Option<QueueError> {
    if is_blank(name) {
        Some(QueueError::MissingIdentity)
    } else if is_blank(path) {
        Some(QueueError::MissingPath)
    } else if first_index(q.active, conflicts_with(id, name, parent)) < q.active.len() {
        Some(QueueError::DuplicateActive)
    } else {
        None
    }
}

/// The queue after `task` was accepted: stale history for the same
/// identity is gone and the task is the youngest running one.
pub open spec fn after_enqueue(q: QueueView<UploadTaskView>, task: UploadTaskView) -> QueueView<
    UploadTaskView,
> {
    let stays = clear_of(task.task_id, task.file_name, task.parent_id);
    QueueView {
        active: q.active.push(task),
        completed: q.completed.filter(stays),
        failed: q.failed.filter(stays),
    }
}

/// `t` as it is filed once the upload has succeeded.
pub open spec fn succeeded(t: UploadTaskView, remote_id: Seq<char>, now: i64) -> UploadTaskView {
    UploadTaskView {
        status: UploadStatus::Completed,
        completed_at: Some(now),
        remote_id: Some(remote_id),
        error_message: None,
        ..t
    }
}

/// `t` as it is filed once the upload has failed with `message`.
pub open spec fn failed_with(t: UploadTaskView, message: Seq<char>, now: i64) -> UploadTaskView {
    UploadTaskView {
        status: UploadStatus::Failed,
        completed_at: Some(now),
        error_message: Some(message),
        ..t
    }
}

/// `t` as it is filed once its worker has honoured a cancellation.
pub open spec fn cancelled(t: UploadTaskView, now: i64) -> UploadTaskView {
    UploadTaskView {
        status: UploadStatus::Cancelled,
        completed_at: Some(now),
        error_message: Some(cancelled_message()),
        ..t
    }
}

/// Whether the running task `t` takes a progress tick: the byte count
/// does not go back, and it does not pass the size where one is known,
/// be it reported with the tick or recorded before.
pub open spec fn in_order(t: UploadTaskView, bytes: u64, total: Option<u64>) -> bool {
    &&& t.bytes_uploaded is Some ==> t.bytes_uploaded->0 <= bytes
    &&& total is Some ==> bytes <= total->0
    &&& total is None && t.size is Some ==> bytes <= t.size->0
}

/// `t` after a progress tick that it takes.
pub open spec fn progressed(t: UploadTaskView, bytes: u64, total: Option<u64>) -> UploadTaskView {
    UploadTaskView {
        bytes_uploaded: Some(bytes),
        size: if total is Some { total } else { t.size },
        ..t
    }
}

/// Position of the running task with this id, or the number of running
/// tasks when there is none.
pub open spec fn active_position(q: QueueView<UploadTaskView>, id: Seq<char>) -> int {
    first_index(q.active, key_is::<UploadTaskView>(id))
}

/// Whether a task with this id is running.
pub open spec fn is_active(q: QueueView<UploadTaskView>, id: Seq<char>) -> bool {
    active_position(q, id) < q.active.len()
}

/// The queue after the running task `id` succeeded. Nothing changes when no
/// such task is running.
pub open spec fn after_success(
    q: QueueView<UploadTaskView>,
    id: Seq<char>,
    remote_id: Seq<char>,
    now: i64,
) -> QueueView<UploadTaskView> {
    let pos = active_position(q, id);
    if pos < q.active.len() {
        QueueView {
            active: q.active.remove(pos),
            completed: q.completed.insert(0, succeeded(q.active[pos], remote_id, now)),
            failed: q.failed,
        }
    } else {
        q
    }
}

/// The queue after the task `id` failed. When the task is no longer
/// running, a stale failure entry under the same id is dropped instead.
pub open spec fn after_failure(
    q: QueueView<UploadTaskView>,
    id: Seq<char>,
    message: Seq<char>,
    now: i64,
) -> QueueView<UploadTaskView> {
    let pos = active_position(q, id);
    if pos < q.active.len() {
        QueueView {
            active: q.active.remove(pos),
            completed: q.completed,
            failed: q.failed.insert(0, failed_with(q.active[pos], message, now)),
        }
    } else {
        QueueView { active: q.active, completed: q.completed, failed: without_key(q.failed, id) }
    }
}

/// The queue after the worker of the running task `id` stopped on a
/// cancellation. Nothing changes when no such task is running.
pub open spec fn after_cancelled(q: QueueView<UploadTaskView>, id: Seq<char>, now: i64)
    -> QueueView<UploadTaskView> {
    let pos = active_position(q, id);
    if pos < q.active.len() {
        QueueView {
            active: q.active.remove(pos),
            completed: q.completed,
            failed: q.failed.insert(0, cancelled(q.active[pos], now)),
        }
    } else {
        q
    }
}

/// The queue without any task filed under `id`.
pub open spec fn after_remove(q: QueueView<UploadTaskView>, id: Seq<char>) -> QueueView<
    UploadTaskView,
> {
    QueueView {
        active: without_key(q.active, id),
        completed: without_key(q.completed, id),
        failed: without_key(q.failed, id),
    }
}

/// The queue with its history emptied; running tasks stay.
pub open spec fn after_clear_history(q: QueueView<UploadTaskView>) -> QueueView<UploadTaskView> {
    QueueView { active: q.active, completed: Seq::empty(), failed: Seq::empty() }
}

/// The queue with its failed and cancelled tasks dropped.
pub open spec fn after_clear_failed(q: QueueView<UploadTaskView>) -> QueueView<UploadTaskView> {
    QueueView { active: q.active, completed: q.completed, failed: Seq::empty() }
}

/// Whether the queue takes a progress tick of `id`: the task is running
/// and the tick is in order.
pub open spec fn takes_tick(q: QueueView<UploadTaskView>, id: Seq<char>, bytes: u64, total: Option<u64>)
    -> bool {
    is_active(q, id) && in_order(q.active[active_position(q, id)], bytes, total)
}

/// The queue after a progress tick of the running task `id`. A tick that
/// is out of order is dropped, and so are the ticks of
/// tasks that are not running change nothing.
pub open spec fn after_progress(
    q: QueueView<UploadTaskView>,
    id: Seq<char>,
    bytes: u64,
    total: Option<u64>,
) -> QueueView<UploadTaskView> {
    let pos = active_position(q, id);
    if takes_tick(q, id, bytes, total) {
        QueueView { active: q.active.update(pos, progressed(q.active[pos], bytes, total)), ..q }
    } else {
        q
    }
}

/// The queue after the running task `id` was given a resumable session.
pub open spec fn after_session(
    q: QueueView<UploadTaskView>,
    id: Seq<char>,
    url: Option<Seq<char>>,
) -> QueueView<UploadTaskView> {
    let pos = active_position(q, id);
    if pos < q.active.len() {
        QueueView {
            active: q.active.update(pos, UploadTaskView { session_url: url, ..q.active[pos] }),
            ..q
        }
    } else {
        q
    }
}

/// Every task sits in the sequence that its status names.
pub open spec fn statuses_match(q: QueueView<UploadTaskView>) -> bool {
    &&& forall|i: int|
        0 <= i < q.active.len() ==> (#[trigger] q.active[i]).status == UploadStatus::InProgress
    &&& forall|i: int|
        0 <= i < q.completed.len() ==> (#[trigger] q.completed[i]).status
            == UploadStatus::Completed
    &&& forall|i: int|
        0 <= i < q.failed.len() ==> {
            ||| (#[trigger] q.failed[i]).status == UploadStatus::Failed
            ||| q.failed[i].status == UploadStatus::Cancelled
        }
}

/// Running tasks carry no completion time, all others carry one.
pub open spec fn stamps_match(q: QueueView<UploadTaskView>) -> bool {
    &&& forall|i: int| 0 <= i < q.active.len() ==> (#[trigger] q.active[i]).completed_at is None
    &&& forall|i: int|
        0 <= i < q.completed.len() ==> (#[trigger] q.completed[i]).completed_at is Some
    &&& forall|i: int| 0 <= i < q.failed.len() ==> (#[trigger] q.failed[i]).completed_at is Some
}

/// The invariant of the upload queue: no id occurs twice and every task
/// sits where its status says.
pub open spec fn well_formed(q: QueueView<UploadTaskView>) -> bool {
    q.keys_unique() && statuses_match(q)
}

/// Sequences whose elements all stem from a queue with matching statuses
/// have matching statuses too.
proof fn lemma_kept_statuses(q: QueueView<UploadTaskView>, r: QueueView<UploadTaskView>)
    requires
        statuses_match(q),
        forall|i: int| 0 <= i < r.active.len() ==> q.active.contains(#[trigger] r.active[i]),
        forall|i: int|
            0 <= i < r.completed.len() ==> q.completed.contains(#[trigger] r.completed[i]),
        forall|i: int| 0 <= i < r.failed.len() ==> q.failed.contains(#[trigger] r.failed[i]),
    ensures
        statuses_match(r),
{
    assert forall|i: int| 0 <= i < r.active.len() implies (#[trigger] r.active[i]).status
        == UploadStatus::InProgress by {
        let t = r.active[i];
        assert(q.active.contains(t));
        let j = choose|j: int| 0 <= j < q.active.len() && q.active[j] == t;
        assert(q.active[j].status == UploadStatus::InProgress);
    }
    assert forall|i: int| 0 <= i < r.completed.len() implies (#[trigger] r.completed[i]).status
        == UploadStatus::Completed by {
        let t = r.completed[i];
        assert(q.completed.contains(t));
        let j = choose|j: int| 0 <= j < q.completed.len() && q.completed[j] == t;
        assert(q.completed[j].status == UploadStatus::Completed);
    }
    assert forall|i: int| 0 <= i < r.failed.len() implies {
        ||| (#[trigger] r.failed[i]).status == UploadStatus::Failed
        ||| r.failed[i].status == UploadStatus::Cancelled
    } by {
        let t = r.failed[i];
        assert(q.failed.contains(t));
        let j = choose|j: int| 0 <= j < q.failed.len() && q.failed[j] == t;
        assert(q.failed[j].status == UploadStatus::Failed || q.failed[j].status
            == UploadStatus::Cancelled);
    }
}

/// The same for completion times.
proof fn lemma_kept_stamps(q: QueueView<UploadTaskView>, r: QueueView<UploadTaskView>)
    requires
        stamps_match(q),
        forall|i: int| 0 <= i < r.active.len() ==> q.active.contains(#[trigger] r.active[i]),
        forall|i: int|
            0 <= i < r.completed.len() ==> q.completed.contains(#[trigger] r.completed[i]),
        forall|i: int| 0 <= i < r.failed.len() ==> q.failed.contains(#[trigger] r.failed[i]),
    ensures
        stamps_match(r),
{
    assert forall|i: int| 0 <= i < r.active.len() implies (
    #[trigger] r.active[i]).completed_at is None by {
        let t = r.active[i];
        assert(q.active.contains(t));
        let j = choose|j: int| 0 <= j < q.active.len() && q.active[j] == t;
        assert(q.active[j].completed_at is None);
    }
    assert forall|i: int| 0 <= i < r.completed.len() implies (
    #[trigger] r.completed[i]).completed_at is Some by {
        let t = r.completed[i];
        assert(q.completed.contains(t));
        let j = choose|j: int| 0 <= j < q.completed.len() && q.completed[j] == t;
        assert(q.completed[j].completed_at is Some);
    }
    assert forall|i: int| 0 <= i < r.failed.len() implies (
    #[trigger] r.failed[i]).completed_at is Some by {
        let t = r.failed[i];
        assert(q.failed.contains(t));
        let j = choose|j: int| 0 <= j < q.failed.len() && q.failed[j] == t;
        assert(q.failed[j].completed_at is Some);
    }
}

/// A sequence contains each of its elements.
proof fn lemma_contains_own<T>(s: Seq<T>)
    ensures
        forall|i: int| 0 <= i < s.len() ==> s.contains(#[trigger] s[i]),
{
}

/// Accepting a task that conflicts with nothing running keeps the
/// invariant.
pub proof fn lemma_enqueue_well_formed(q: QueueView<UploadTaskView>, task: UploadTaskView)
    requires
        task.status == UploadStatus::InProgress,
        task.completed_at is None,
        first_index(q.active, conflicts_with(task.task_id, task.file_name, task.parent_id))
            == q.active.len(),
    ensures
        well_formed(q) ==> well_formed(after_enqueue(q, task)),
        stamps_match(q) ==> stamps_match(after_enqueue(q, task)),
{
    let id = task.task_id;
    let busy = conflicts_with(id, task.file_name, task.parent_id);
    let stays = clear_of(id, task.file_name, task.parent_id);
    let r = after_enqueue(q, task);
    lemma_first_index(q.active, busy);
    lemma_filter_elements(q.completed, stays);
    lemma_filter_elements(q.failed, stays);
    let kept = QueueView { active: q.active, ..r };
    lemma_contains_own(q.active);
    if stamps_match(q) {
        lemma_kept_stamps(q, kept);
    }
    if well_formed(q) {
        lemma_kept_statuses(q, kept);
        assert forall|k: Seq<char>| #[trigger] r.occurrences(k) <= 1 by {
            assert(q.occurrences(k) <= 1);
            lemma_count_push(q.active, task, k);
            lemma_count_filter(q.completed, stays, k);
            lemma_count_filter(q.failed, stays, k);
            if k == id {
                lemma_count_positive(q.active, k);
                lemma_count_positive(r.completed, k);
                lemma_count_positive(r.failed, k);
                assert forall|i: int| 0 <= i < q.active.len() implies (
                #[trigger] q.active[i]).key() != k by {
                    assert(!busy(q.active[i]));
                }
                assert forall|i: int| 0 <= i < r.completed.len() implies (
                #[trigger] r.completed[i]).key() != k by {
                    assert(stays(r.completed[i]));
                }
                assert forall|i: int| 0 <= i < r.failed.len() implies (
                #[trigger] r.failed[i]).key() != k by {
                    assert(stays(r.failed[i]));
                }
            }
        }
    }
}

/// Success keeps the invariant.
pub proof fn lemma_success_well_formed(
    q: QueueView<UploadTaskView>,
    id: Seq<char>,
    remote_id: Seq<char>,
    now: i64,
)
    ensures
        well_formed(q) ==> well_formed(after_success(q, id, remote_id, now)),
        stamps_match(q) ==> stamps_match(after_success(q, id, remote_id, now)),
{
    let pos = active_position(q, id);
    let r = after_success(q, id, remote_id, now);
    lemma_first_index(q.active, key_is::<UploadTaskView>(id));
    if pos < q.active.len() && well_formed(q) {
        let moved = succeeded(q.active[pos], remote_id, now);
        assert forall|k: Seq<char>| #[trigger] r.occurrences(k) <= 1 by {
            assert(q.occurrences(k) <= 1);
            lemma_count_remove(q.active, pos, k);
            lemma_count_insert_front(q.completed, moved, k);
        }
    }
}

/// Failure keeps the invariant.
pub proof fn lemma_failure_well_formed(
    q: QueueView<UploadTaskView>,
    id: Seq<char>,
    message: Seq<char>,
    now: i64,
)
    ensures
        well_formed(q) ==> well_formed(after_failure(q, id, message, now)),
        stamps_match(q) ==> stamps_match(after_failure(q, id, message, now)),
{
    let pos = active_position(q, id);
    let r = after_failure(q, id, message, now);
    lemma_first_index(q.active, key_is::<UploadTaskView>(id));
    if pos < q.active.len() {
        if well_formed(q) {
            let moved = failed_with(q.active[pos], message, now);
            assert forall|k: Seq<char>| #[trigger] r.occurrences(k) <= 1 by {
                assert(q.occurrences(k) <= 1);
                lemma_count_remove(q.active, pos, k);
                lemma_count_insert_front(q.failed, moved, k);
            }
        }
    } else {
        lemma_filter_elements(q.failed, key_is_not::<UploadTaskView>(id));
        lemma_contains_own(q.active);
        lemma_contains_own(q.completed);
        if stamps_match(q) {
            lemma_kept_stamps(q, r);
        }
        if well_formed(q) {
            assert forall|k: Seq<char>| #[trigger] r.occurrences(k) <= 1 by {
                assert(q.occurrences(k) <= 1);
                lemma_count_without(q.failed, id, k);
            }
            lemma_kept_statuses(q, r);
        }
    }
}

/// Cancellation keeps the invariant.
pub proof fn lemma_cancelled_well_formed(q: QueueView<UploadTaskView>, id: Seq<char>, now: i64)
    ensures
        well_formed(q) ==> well_formed(after_cancelled(q, id, now)),
        stamps_match(q) ==> stamps_match(after_cancelled(q, id, now)),
{
    let pos = active_position(q, id);
    let r = after_cancelled(q, id, now);
    lemma_first_index(q.active, key_is::<UploadTaskView>(id));
    if pos < q.active.len() && well_formed(q) {
        let moved = cancelled(q.active[pos], now);
        assert forall|k: Seq<char>| #[trigger] r.occurrences(k) <= 1 by {
            assert(q.occurrences(k) <= 1);
            lemma_count_remove(q.active, pos, k);
            lemma_count_insert_front(q.failed, moved, k);
        }
    }
}

/// Removal keeps the invariant.
pub proof fn lemma_remove_well_formed(q: QueueView<UploadTaskView>, id: Seq<char>)
    ensures
        well_formed(q) ==> well_formed(after_remove(q, id)),
        stamps_match(q) ==> stamps_match(after_remove(q, id)),
{
    let r = after_remove(q, id);
    let p = key_is_not::<UploadTaskView>(id);
    lemma_filter_elements(q.active, p);
    lemma_filter_elements(q.completed, p);
    lemma_filter_elements(q.failed, p);
    if stamps_match(q) {
        lemma_kept_stamps(q, r);
    }
    if well_formed(q) {
        assert forall|k: Seq<char>| #[trigger] r.occurrences(k) <= 1 by {
            assert(q.occurrences(k) <= 1);
            lemma_count_without(q.active, id, k);
            lemma_count_without(q.completed, id, k);
            lemma_count_without(q.failed, id, k);
        }
        lemma_kept_statuses(q, r);
    }
}

/// Clearing history keeps the invariant.
pub proof fn lemma_clear_well_formed(q: QueueView<UploadTaskView>)
    ensures
        well_formed(q) ==> well_formed(after_clear_history(q)) && well_formed(
            after_clear_failed(q),
        ),
        stamps_match(q) ==> stamps_match(after_clear_history(q)) && stamps_match(
            after_clear_failed(q),
        ),
{
    let r = after_clear_history(q);
    let f = after_clear_failed(q);
    if well_formed(q) {
        assert forall|k: Seq<char>| #[trigger] r.occurrences(k) <= 1 by {
            assert(q.occurrences(k) <= 1);
            lemma_count_empty::<UploadTaskView>(k);
        }
        assert forall|k: Seq<char>| #[trigger] f.occurrences(k) <= 1 by {
            assert(q.occurrences(k) <= 1);
            lemma_count_empty::<UploadTaskView>(k);
        }
    }
}

/// Progress ticks and session updates keep the invariant.
pub proof fn lemma_update_well_formed(
    q: QueueView<UploadTaskView>,
    id: Seq<char>,
    bytes: u64,
    total: Option<u64>,
    url: Option<Seq<char>>,
)
    ensures
        well_formed(q) ==> well_formed(after_progress(q, id, bytes, total)) && well_formed(
            after_session(q, id, url),
        ),
        stamps_match(q) ==> stamps_match(after_progress(q, id, bytes, total)) && stamps_match(
            after_session(q, id, url),
        ),
{
    let pos = active_position(q, id);
    lemma_first_index(q.active, key_is::<UploadTaskView>(id));
    if pos < q.active.len() && well_formed(q) {
        let a = after_progress(q, id, bytes, total);
        let b = after_session(q, id, url);
        assert forall|k: Seq<char>| #[trigger] a.occurrences(k) <= 1 by {
            assert(q.occurrences(k) <= 1);
            lemma_count_update(q.active, pos, progressed(q.active[pos], bytes, total), k);
        }
        assert forall|k: Seq<char>| #[trigger] b.occurrences(k) <= 1 by {
            assert(q.occurrences(k) <= 1);
            lemma_count_update(
                q.active,
                pos,
                UploadTaskView { session_url: url, ..q.active[pos] },
                k,
            );
        }
    }
}

/// The bytes transferred do not exceed the size, where both are known.
pub open spec fn within_size(t: UploadTaskView) -> bool {
    t.bytes_uploaded is Some && t.size is Some ==> t.bytes_uploaded->0 <= t.size->0
}

/// No task of the queue has transferred more than its size.
pub open spec fn sizes_match(q: QueueView<UploadTaskView>) -> bool {
    &&& forall|i: int| 0 <= i < q.active.len() ==> within_size(#[trigger] q.active[i])
    &&& forall|i: int| 0 <= i < q.completed.len() ==> within_size(#[trigger] q.completed[i])
    &&& forall|i: int| 0 <= i < q.failed.len() ==> within_size(#[trigger] q.failed[i])
}

/// Sequences whose elements all stem from a queue that respects the sizes
/// respect them too.
proof fn lemma_kept_sizes(q: QueueView<UploadTaskView>, r: QueueView<UploadTaskView>)
    requires
        sizes_match(q),
        forall|i: int| 0 <= i < r.active.len() ==> q.active.contains(#[trigger] r.active[i]),
        forall|i: int|
            0 <= i < r.completed.len() ==> q.completed.contains(#[trigger] r.completed[i]),
        forall|i: int| 0 <= i < r.failed.len() ==> q.failed.contains(#[trigger] r.failed[i]),
    ensures
        sizes_match(r),
{
    assert forall|i: int| 0 <= i < r.active.len() implies within_size(#[trigger] r.active[i]) by {
        let t = r.active[i];
        assert(q.active.contains(t));
        let j = choose|j: int| 0 <= j < q.active.len() && q.active[j] == t;
        assert(within_size(q.active[j]));
    }
    assert forall|i: int| 0 <= i < r.completed.len() implies within_size(
        #[trigger] r.completed[i],
    ) by {
        let t = r.completed[i];
        assert(q.completed.contains(t));
        let j = choose|j: int| 0 <= j < q.completed.len() && q.completed[j] == t;
        assert(within_size(q.completed[j]));
    }
    assert forall|i: int| 0 <= i < r.failed.len() implies within_size(#[trigger] r.failed[i]) by {
        let t = r.failed[i];
        assert(q.failed.contains(t));
        let j = choose|j: int| 0 <= j < q.failed.len() && q.failed[j] == t;
        assert(within_size(q.failed[j]));
    }
}

/// A queue that respects the sizes goes on respecting them: always when a
/// task is accepted, removed, filed as failed or cancelled or dropped with the
/// history, or when a task progresses; and when a task succeeds, as long as
/// the bytes reported do not exceed the size that the task then has.
pub proof fn lemma_sizes_kept(
    q: QueueView<UploadTaskView>,
    task: UploadTaskView,
    id: Seq<char>,
    text: Seq<char>,
    now: i64,
    bytes: u64,
    total: Option<u64>,
    url: Option<Seq<char>>,
)
    ensures
        sizes_match(q) && within_size(task) ==> sizes_match(after_enqueue(q, task)),
        sizes_match(q) ==> sizes_match(after_failure(q, id, text, now)),
        sizes_match(q) ==> sizes_match(after_remove(q, id)),
        sizes_match(q) ==> sizes_match(after_clear_history(q)),
        sizes_match(q) ==> sizes_match(after_clear_failed(q)),
        sizes_match(q) ==> sizes_match(after_cancelled(q, id, now)),
        sizes_match(q) ==> sizes_match(after_session(q, id, url)),
        sizes_match(q) && (is_active(q, id) ==> within_size(
            after_success(q, id, text, now).completed[0],
        )) ==> sizes_match(after_success(q, id, text, now)),
        sizes_match(q) ==> sizes_match(after_progress(q, id, bytes, total)),
{
    lemma_first_index(q.active, key_is::<UploadTaskView>(id));
    if sizes_match(q) {
        let stays = clear_of(task.task_id, task.file_name, task.parent_id);
        lemma_filter_elements(q.completed, stays);
        lemma_filter_elements(q.failed, stays);
        lemma_contains_own(q.active);
        lemma_contains_own(q.completed);
        lemma_contains_own(q.failed);
        let kept = QueueView { active: q.active, ..after_enqueue(q, task) };
        lemma_kept_sizes(q, kept);
        let gone = key_is_not::<UploadTaskView>(id);
        lemma_filter_elements(q.active, gone);
        lemma_filter_elements(q.completed, gone);
        lemma_filter_elements(q.failed, gone);
        lemma_kept_sizes(q, after_remove(q, id));
        if !is_active(q, id) {
            lemma_kept_sizes(q, after_failure(q, id, text, now));
        }
    }
}

} // verus!
