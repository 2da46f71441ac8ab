//! The download queue as a value: what each operation of the manager does
//! to the three task sequences, stated over their views.

use vstd::prelude::*;

use crate::errors::QueueError;
use crate::models::{
    DownloadStatus, DownloadTaskView, DriveDownloadResult, DriveItemSummaryView, QueueView,
};
use crate::queue_model::{
    first_index, key_is, key_is_not, lemma_count_empty, lemma_count_insert_front,
    lemma_count_positive, lemma_count_push, lemma_count_remove, lemma_count_update,
    lemma_count_without, lemma_filter_elements, lemma_first_index, without_key, TaskRecord,
};
use crate::text::is_blank;

verus! {

impl TaskRecord for DownloadTaskView {
    open spec fn key(self) -> Seq<char> {
        self.item.id
    }
}

/// The record of a download that has just been accepted.
pub open spec fn fresh_download(item: DriveItemSummaryView, now: i64) -> DownloadTaskView {
    DownloadTaskView {
        item,
        status: DownloadStatus::InProgress,
        started_at: now,
        completed_at: None,
        saved_path: None,
        size_label: item.size,
        bytes_downloaded: Some(0),
        error_message: None,
    }
}

/// Position of the running task for this item, or the number of running
/// tasks when there is none.
pub open spec fn active_position(q: QueueView<DownloadTaskView>, id: Seq<char>) -> int {
    first_index(q.active, key_is::<DownloadTaskView>(id))
}

/// Whether a download of this item is running.
pub open spec fn is_active(q: QueueView<DownloadTaskView>, id: Seq<char>) -> bool {
    active_position(q, id) < q.active.len()
}

/// Why the queue `q` refuses to download the item into `target`, if it
/// does: a blank item id, a blank target directory, or a running download
/// of the same item.
pub open spec fn enqueue_rejection(
    q: QueueView<DownloadTaskView>,
    id: Seq<char>,
    target: Seq<char>,
) -> Option<QueueError> {
    if is_blank(id) {
        Some(QueueError::MissingIdentity)
    } else if is_blank(target) {
        Some(QueueError::MissingPath)
    } else if is_active(q, id) {
        Some(QueueError::DuplicateActive)
    } else {
        None
    }
}

/// The queue after `task` was accepted: stale history of the same item is
/// gone and the task is the youngest running one.
pub open spec fn after_enqueue(q: QueueView<DownloadTaskView>, task: DownloadTaskView)
    -> QueueView<DownloadTaskView> {
    QueueView {
        active: q.active.push(task),
        completed: without_key(q.completed, task.item.id),
        failed: without_key(q.failed, task.item.id),
    }
}

/// `t` as it is filed once the download has succeeded. A size that was
/// known before stands; otherwise the size that the transfer expected is
/// recorded.
pub open spec fn succeeded(
    t: DownloadTaskView,
    saved_path: Seq<char>,
    bytes: u64,
    expected: Option<u64>,
    now: i64,
) -> DownloadTaskView {
    DownloadTaskView {
        status: DownloadStatus::Completed,
        completed_at: Some(now),
        saved_path: Some(saved_path),
        size_label: if t.size_label is Some { t.size_label } else { expected },
        bytes_downloaded: Some(bytes),
        error_message: None,
        ..t
    }
}

/// `t` as it is filed once the download has failed with `message`.
pub open spec fn failed_with(t: DownloadTaskView, message: Seq<char>, now: i64)
    -> DownloadTaskView {
    DownloadTaskView {
        status: DownloadStatus::Failed,
        completed_at: Some(now),
        error_message: Some(message),
        ..t
    }
}

/// Whether the running task `t` takes a progress tick: the byte count
/// does not go back, and it does not pass the size where one is known,
/// be it reported with the tick or recorded before.
pub open spec fn in_order(t: DownloadTaskView, bytes: u64, expected: Option<u64>) -> bool {
    &&& t.bytes_downloaded is Some ==> t.bytes_downloaded->0 <= bytes
    &&& expected is Some ==> bytes <= expected->0
    &&& expected is None && t.size_label is Some ==> bytes <= t.size_label->0
}

/// `t` after a progress tick that it takes.
pub open spec fn progressed(t: DownloadTaskView, bytes: u64, expected: Option<u64>)
    -> DownloadTaskView {
    DownloadTaskView {
        bytes_downloaded: Some(bytes),
        size_label: if expected is Some { expected } else { t.size_label },
        ..t
    }
}

/// The queue after the running download `id` succeeded. Nothing changes
/// when no such download is running.
pub open spec fn after_success(
    q: QueueView<DownloadTaskView>,
    id: Seq<char>,
    saved_path: Seq<char>,
    bytes: u64,
    expected: Option<u64>,
    now: i64,
) -> QueueView<DownloadTaskView> {
    let pos = active_position(q, id);
    if pos < q.active.len() {
        QueueView {
            active: q.active.remove(pos),
            completed: q.completed.insert(
                0,
                succeeded(q.active[pos], saved_path, bytes, expected, now),
            ),
            failed: q.failed,
        }
    } else {
        q
    }
}

/// The queue after the download `id` failed. When the download is no
/// longer running, a stale failure entry of the same item is dropped
/// instead.
pub open spec fn after_failure(
    q: QueueView<DownloadTaskView>,
    id: Seq<char>,
    message: Seq<char>,
    now: i64,
) -> QueueView<DownloadTaskView> {
    let pos = active_position(q, id);
    if pos < q.active.len() {
        QueueView {
            active: q.active.remove(pos),
            completed: q.completed,
            failed: q.failed.insert(0, failed_with(q.active[pos], message, now)),
        }
    } else {
        QueueView { active: q.active, completed: q.completed, failed: without_key(q.failed, id) }
    }
}

/// The queue without any task of item `id`.
pub open spec fn after_remove(q: QueueView<DownloadTaskView>, id: Seq<char>) -> QueueView<
    DownloadTaskView,
> {
    QueueView {
        active: without_key(q.active, id),
        completed: without_key(q.completed, id),
        failed: without_key(q.failed, id),
    }
}

/// The queue with its history emptied; running tasks stay.
pub open spec fn after_clear_history(q: QueueView<DownloadTaskView>) -> QueueView<
    DownloadTaskView,
> {
    QueueView { active: q.active, completed: Seq::empty(), failed: Seq::empty() }
}

/// The queue with its failed tasks dropped.
pub open spec fn after_clear_failed(q: QueueView<DownloadTaskView>) -> QueueView<DownloadTaskView> {
    QueueView { active: q.active, completed: q.completed, failed: Seq::empty() }
}

/// Whether the queue takes a progress tick of `id`: the download is running
/// and the tick is in order.
pub open spec fn takes_tick(q: QueueView<DownloadTaskView>, id: Seq<char>, bytes: u64, expected: Option<u64>)
    -> bool {
    is_active(q, id) && in_order(q.active[active_position(q, id)], bytes, expected)
}

/// The queue after a progress tick of the running download `id`. A tick that
/// is out of order is dropped, and so are the ticks of
/// downloads that are not running change nothing.
pub open spec fn after_progress(
    q: QueueView<DownloadTaskView>,
    id: Seq<char>,
    bytes: u64,
    expected: Option<u64>,
) -> QueueView<DownloadTaskView> {
    let pos = active_position(q, id);
    if takes_tick(q, id, bytes, expected) {
        QueueView { active: q.active.update(pos, progressed(q.active[pos], bytes, expected)), ..q }
    } else {
        q
    }
}

/// Every task sits in the sequence that its status names.
pub open spec fn statuses_match(q: QueueView<DownloadTaskView>) -> bool {
    &&& forall|i: int|
        0 <= i < q.active.len() ==> (#[trigger] q.active[i]).status == DownloadStatus::InProgress
    &&& forall|i: int|
        0 <= i < q.completed.len() ==> (#[trigger] q.completed[i]).status
            == DownloadStatus::Completed
    &&& forall|i: int|
        0 <= i < q.failed.len() ==> (#[trigger] q.failed[i]).status == DownloadStatus::Failed
}

/// Running tasks carry no completion time, all others carry one.
pub open spec fn stamps_match(q: QueueView<DownloadTaskView>) -> bool {
    &&& forall|i: int| 0 <= i < q.active.len() ==> (#[trigger] q.active[i]).completed_at is None
    &&& forall|i: int|
        0 <= i < q.completed.len() ==> (#[trigger] q.completed[i]).completed_at is Some
    &&& forall|i: int| 0 <= i < q.failed.len() ==> (#[trigger] q.failed[i]).completed_at is Some
}

/// The invariant of the download queue: no item occurs twice and every
/// task sits where its status says.
pub open spec fn well_formed(q: QueueView<DownloadTaskView>) -> bool {
    q.keys_unique() && statuses_match(q)
}

/// Sequences whose elements all stem from a queue with matching statuses
/// have matching statuses too.
proof fn lemma_kept_statuses(q: QueueView<DownloadTaskView>, r: QueueView<DownloadTaskView>)
    requires
        statuses_match(q),
        forall|i: int| 0 <= i < r.active.len() ==> q.active.contains(#[trigger] r.active[i]),
        forall|i: int|
            0 <= i < r.completed.len() ==> q.completed.contains(#[trigger] r.completed[i]),
        forall|i: int| 0 <= i < r.failed.len() ==> q.failed.contains(#[trigger] r.failed[i]),
    ensures
        statuses_match(r),
{
    assert forall|i: int| 0 <= i < r.active.len() implies (#[trigger] r.active[i]).status
        == DownloadStatus::InProgress by {
        let t = r.active[i];
        assert(q.active.contains(t));
        let j = choose|j: int| 0 <= j < q.active.len() && q.active[j] == t;
        assert(q.active[j].status == DownloadStatus::InProgress);
    }
    assert forall|i: int| 0 <= i < r.completed.len() implies (#[trigger] r.completed[i]).status
        == DownloadStatus::Completed by {
        let t = r.completed[i];
        assert(q.completed.contains(t));
        let j = choose|j: int| 0 <= j < q.completed.len() && q.completed[j] == t;
        assert(q.completed[j].status == DownloadStatus::Completed);
    }
    assert forall|i: int| 0 <= i < r.failed.len() implies (#[trigger] r.failed[i]).status
        == DownloadStatus::Failed by {
        let t = r.failed[i];
        assert(q.failed.contains(t));
        let j = choose|j: int| 0 <= j < q.failed.len() && q.failed[j] == t;
        assert(q.failed[j].status == DownloadStatus::Failed);
    }
}

/// The same for completion times.
proof fn lemma_kept_stamps(q: QueueView<DownloadTaskView>, r: QueueView<DownloadTaskView>)
    requires
        stamps_match(q),
        forall|i: int| 0 <= i < r.active.len() ==> q.active.contains(#[trigger] r.active[i]),
        forall|i: int|
            0 <= i < r.completed.len() ==> q.completed.contains(#[trigger] r.completed[i]),
        forall|i: int| 0 <= i < r.failed.len() ==> q.failed.contains(#[trigger] r.failed[i]),
    ensures
        stamps_match(r),
{
    assert forall|i: int| 0 <= i < r.active.len() implies (
    #[trigger] r.active[i]).completed_at is None by {
        let t = r.active[i];
        assert(q.active.contains(t));
        let j = choose|j: int| 0 <= j < q.active.len() && q.active[j] == t;
        assert(q.active[j].completed_at is None);
    }
    assert forall|i: int| 0 <= i < r.completed.len() implies (
    #[trigger] r.completed[i]).completed_at is Some by {
        let t = r.completed[i];
        assert(q.completed.contains(t));
        let j = choose|j: int| 0 <= j < q.completed.len() && q.completed[j] == t;
        assert(q.completed[j].completed_at is Some);
    }
    assert forall|i: int| 0 <= i < r.failed.len() implies (
    #[trigger] r.failed[i]).completed_at is Some by {
        let t = r.failed[i];
        assert(q.failed.contains(t));
        let j = choose|j: int| 0 <= j < q.failed.len() && q.failed[j] == t;
        assert(q.failed[j].completed_at is Some);
    }
}

/// A sequence contains each of its elements.
proof fn lemma_contains_own<T>(s: Seq<T>)
    ensures
        forall|i: int| 0 <= i < s.len() ==> s.contains(#[trigger] s[i]),
{
}

/// Accepting a download of an item that is not being downloaded keeps the
/// invariant.
pub proof fn lemma_enqueue_well_formed(q: QueueView<DownloadTaskView>, task: DownloadTaskView)
    requires
        task.status == DownloadStatus::InProgress,
        task.completed_at is None,
        !is_active(q, task.item.id),
    ensures
        well_formed(q) ==> well_formed(after_enqueue(q, task)),
        stamps_match(q) ==> stamps_match(after_enqueue(q, task)),
{
    let id = task.item.id;
    let r = after_enqueue(q, task);
    let stays = key_is_not::<DownloadTaskView>(id);
    lemma_first_index(q.active, key_is::<DownloadTaskView>(id));
    lemma_filter_elements(q.completed, stays);
    lemma_filter_elements(q.failed, stays);
    let kept = QueueView { active: q.active, ..r };
    lemma_contains_own(q.active);
    if stamps_match(q) {
        lemma_kept_stamps(q, kept);
    }
    if well_formed(q) {
        lemma_kept_statuses(q, kept);
        assert forall|k: Seq<char>| #[trigger] r.occurrences(k) <= 1 by {
            assert(q.occurrences(k) <= 1);
            lemma_count_push(q.active, task, k);
            lemma_count_without(q.completed, id, k);
            lemma_count_without(q.failed, id, k);
            lemma_count_positive(q.active, id);
        }
    }
}

/// Success keeps the invariant.
pub proof fn lemma_success_well_formed(
    q: QueueView<DownloadTaskView>,
    id: Seq<char>,
    saved_path: Seq<char>,
    bytes: u64,
    expected: Option<u64>,
    now: i64,
)
    ensures
        well_formed(q) ==> well_formed(after_success(q, id, saved_path, bytes, expected, now)),
        stamps_match(q) ==> stamps_match(after_success(q, id, saved_path, bytes, expected, now)),
{
    let pos = active_position(q, id);
    let r = after_success(q, id, saved_path, bytes, expected, now);
    lemma_first_index(q.active, key_is::<DownloadTaskView>(id));
    if pos < q.active.len() && well_formed(q) {
        let moved = succeeded(q.active[pos], saved_path, bytes, expected, now);
        assert forall|k: Seq<char>| #[trigger] r.occurrences(k) <= 1 by {
            assert(q.occurrences(k) <= 1);
            lemma_count_remove(q.active, pos, k);
            lemma_count_insert_front(q.completed, moved, k);
        }
    }
}

/// Failure keeps the invariant.
pub proof fn lemma_failure_well_formed(
    q: QueueView<DownloadTaskView>,
    id: Seq<char>,
    message: Seq<char>,
    now: i64,
)
    ensures
        well_formed(q) ==> well_formed(after_failure(q, id, message, now)),
        stamps_match(q) ==> stamps_match(after_failure(q, id, message, now)),
{
    let pos = active_position(q, id);
    let r = after_failure(q, id, message, now);
    lemma_first_index(q.active, key_is::<DownloadTaskView>(id));
    if pos < q.active.len() {
        if well_formed(q) {
            let moved = failed_with(q.active[pos], message, now);
            assert forall|k: Seq<char>| #[trigger] r.occurrences(k) <= 1 by {
                assert(q.occurrences(k) <= 1);
                lemma_count_remove(q.active, pos, k);
                lemma_count_insert_front(q.failed, moved, k);
            }
        }
    } else {
        lemma_filter_elements(q.failed, key_is_not::<DownloadTaskView>(id));
        lemma_contains_own(q.active);
        lemma_contains_own(q.completed);
        if stamps_match(q) {
            lemma_kept_stamps(q, r);
        }
        if well_formed(q) {
            assert forall|k: Seq<char>| #[trigger] r.occurrences(k) <= 1 by {
                assert(q.occurrences(k) <= 1);
                lemma_count_without(q.failed, id, k);
            }
            lemma_kept_statuses(q, r);
        }
    }
}

/// Removal keeps the invariant.
pub proof fn lemma_remove_well_formed(q: QueueView<DownloadTaskView>, id: Seq<char>)
    ensures
        well_formed(q) ==> well_formed(after_remove(q, id)),
        stamps_match(q) ==> stamps_match(after_remove(q, id)),
{
    let r = after_remove(q, id);
    let p = key_is_not::<DownloadTaskView>(id);
    lemma_filter_elements(q.active, p);
    lemma_filter_elements(q.completed, p);
    lemma_filter_elements(q.failed, p);
    if stamps_match(q) {
        lemma_kept_stamps(q, r);
    }
    if well_formed(q) {
        assert forall|k: Seq<char>| #[trigger] r.occurrences(k) <= 1 by {
            assert(q.occurrences(k) <= 1);
            lemma_count_without(q.active, id, k);
            lemma_count_without(q.completed, id, k);
            lemma_count_without(q.failed, id, k);
        }
        lemma_kept_statuses(q, r);
    }
}

/// Clearing history keeps the invariant.
pub proof fn lemma_clear_well_formed(q: QueueView<DownloadTaskView>)
    ensures
        well_formed(q) ==> well_formed(after_clear_history(q)) && well_formed(
            after_clear_failed(q),
        ),
        stamps_match(q) ==> stamps_match(after_clear_history(q)) && stamps_match(
            after_clear_failed(q),
        ),
{
    let r = after_clear_history(q);
    let f = after_clear_failed(q);
    if well_formed(q) {
        assert forall|k: Seq<char>| #[trigger] r.occurrences(k) <= 1 by {
            assert(q.occurrences(k) <= 1);
            lemma_count_empty::<DownloadTaskView>(k);
        }
        assert forall|k: Seq<char>| #[trigger] f.occurrences(k) <= 1 by {
            assert(q.occurrences(k) <= 1);
            lemma_count_empty::<DownloadTaskView>(k);
        }
    }
}

/// Progress ticks keep the invariant.
pub proof fn lemma_progress_well_formed(
    q: QueueView<DownloadTaskView>,
    id: Seq<char>,
    bytes: u64,
    expected: Option<u64>,
)
    ensures
        well_formed(q) ==> well_formed(after_progress(q, id, bytes, expected)),
        stamps_match(q) ==> stamps_match(after_progress(q, id, bytes, expected)),
{
    let pos = active_position(q, id);
    lemma_first_index(q.active, key_is::<DownloadTaskView>(id));
    if pos < q.active.len() && well_formed(q) {
        let a = after_progress(q, id, bytes, expected);
        assert forall|k: Seq<char>| #[trigger] a.occurrences(k) <= 1 by {
            assert(q.occurrences(k) <= 1);
            lemma_count_update(q.active, pos, progressed(q.active[pos], bytes, expected), k);
        }
    }
}

/// The bytes transferred do not exceed the size, where both are known.
pub open spec fn within_size(t: DownloadTaskView) -> bool {
    t.bytes_downloaded is Some && t.size_label is Some ==> t.bytes_downloaded->0 <= t.size_label->0
}

/// No task of the queue has transferred more than its size.
pub open spec fn sizes_match(q: QueueView<DownloadTaskView>) -> bool {
    &&& forall|i: int| 0 <= i < q.active.len() ==> within_size(#[trigger] q.active[i])
    &&& forall|i: int| 0 <= i < q.completed.len() ==> within_size(#[trigger] q.completed[i])
    &&& forall|i: int| 0 <= i < q.failed.len() ==> within_size(#[trigger] q.failed[i])
}

/// Sequences whose elements all stem from a queue that respects the sizes
/// respect them too.
proof fn lemma_kept_sizes(q: QueueView<DownloadTaskView>, r: QueueView<DownloadTaskView>)
    requires
        sizes_match(q),
        forall|i: int| 0 <= i < r.active.len() ==> q.active.contains(#[trigger] r.active[i]),
        forall|i: int|
            0 <= i < r.completed.len() ==> q.completed.contains(#[trigger] r.completed[i]),
        forall|i: int| 0 <= i < r.failed.len() ==> q.failed.contains(#[trigger] r.failed[i]),
    ensures
        sizes_match(r),
{
    assert forall|i: int| 0 <= i < r.active.len() implies within_size(#[trigger] r.active[i]) by {
        let t = r.active[i];
        assert(q.active.contains(t));
        let j = choose|j: int| 0 <= j < q.active.len() && q.active[j] == t;
        assert(within_size(q.active[j]));
    }
    assert forall|i: int| 0 <= i < r.completed.len() implies within_size(
        #[trigger] r.completed[i],
    ) by {
        let t = r.completed[i];
        assert(q.completed.contains(t));
        let j = choose|j: int| 0 <= j < q.completed.len() && q.completed[j] == t;
        assert(within_size(q.completed[j]));
    }
    assert forall|i: int| 0 <= i < r.failed.len() implies within_size(#[trigger] r.failed[i]) by {
        let t = r.failed[i];
        assert(q.failed.contains(t));
        let j = choose|j: int| 0 <= j < q.failed.len() && q.failed[j] == t;
        assert(within_size(q.failed[j]));
    }
}

/// A queue that respects the sizes goes on respecting them: always when a
/// task is accepted, removed, filed as failed or dropped with the
/// history, or when a task progresses; and when a task succeeds, as long as
/// the bytes reported do not exceed the size that the task then has.
pub proof fn lemma_sizes_kept(
    q: QueueView<DownloadTaskView>,
    task: DownloadTaskView,
    id: Seq<char>,
    text: Seq<char>,
    bytes_done: u64,
    expected: Option<u64>,
    now: i64,
    bytes: u64,
    total: Option<u64>,
)
    ensures
        sizes_match(q) && within_size(task) ==> sizes_match(after_enqueue(q, task)),
        sizes_match(q) ==> sizes_match(after_failure(q, id, text, now)),
        sizes_match(q) ==> sizes_match(after_remove(q, id)),
        sizes_match(q) ==> sizes_match(after_clear_history(q)),
        sizes_match(q) ==> sizes_match(after_clear_failed(q)),
        sizes_match(q) && (is_active(q, id) ==> within_size(
            after_success(q, id, text, bytes_done, expected, now).completed[0],
        )) ==> sizes_match(after_success(q, id, text, bytes_done, expected, now)),
        sizes_match(q) ==> sizes_match(after_progress(q, id, bytes, total)),
{
    lemma_first_index(q.active, key_is::<DownloadTaskView>(id));
    if sizes_match(q) {
        let stays = key_is_not::<DownloadTaskView>(task.item.id);
        lemma_filter_elements(q.completed, stays);
        lemma_filter_elements(q.failed, stays);
        lemma_contains_own(q.active);
        lemma_contains_own(q.completed);
        lemma_contains_own(q.failed);
        let kept = QueueView { active: q.active, ..after_enqueue(q, task) };
        lemma_kept_sizes(q, kept);
        let gone = key_is_not::<DownloadTaskView>(id);
        lemma_filter_elements(q.active, gone);
        lemma_filter_elements(q.completed, gone);
        lemma_filter_elements(q.failed, gone);
        lemma_kept_sizes(q, after_remove(q, id));
        if !is_active(q, id) {
            lemma_kept_sizes(q, after_failure(q, id, text, now));
        }
    }
}

} // verus!
