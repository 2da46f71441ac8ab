//! What holds of the upload queue whatever is done with it.

use vstd::prelude::*;

use crate::cancel::RegistryView;
use crate::models::{QueueView, UploadQueueState, UploadStatus, UploadTask, UploadTaskView};
use crate::queue_model::{
    count_key, first_index, first_occurrences, key_is, key_is_not, keys_of, lemma_count_filter,
    lemma_count_insert_front, lemma_count_map, lemma_count_positive, lemma_count_push,
    lemma_count_remove, lemma_count_without, lemma_filter_all_true, lemma_filter_elements,
    lemma_first_index, lemma_first_index_is, lemma_first_occurrences, lemma_keys_form_a_set,
    removals, three_way, without_key, StoreRequest, TaskRecord,
};
use crate::sorting::{Ranked, SortKey};
use crate::task_sets::{
    find, found_then, lemma_filter_keeps, lemma_find_add, lemma_find_filter,
    lemma_find_first_occurrences, lemma_find_in_parts, lemma_find_in_queue,
    lemma_find_insert_front, lemma_find_map, lemma_find_none, lemma_find_placed,
    lemma_find_push, lemma_find_remove, lemma_find_unique, lemma_find_update,
    lemma_find_without_keys, lemma_placed_unique, placed, same_tasks, unique_keys,
    without_keys,
};
use crate::upload_manager::manager::superseded_rows;
use crate::upload_manager::queue::{
    active_position, after_cancelled, after_clear_failed, after_clear_history, after_enqueue,
    after_failure, after_progress, after_remove, after_session, after_success, cancelled,
    clear_of, conflicts_with, enqueue_rejection, failed_with, fresh_upload, is_active,
    lemma_enqueue_well_formed, progressed, succeeded, takes_tick, well_formed, within_size,
};
use crate::upload_manager::restore::{
    finished, restored, rows_settled, running, settled, unsuccessful,
};
use crate::upload_manager::storage::{
    lemma_replay_one, lemma_replay_push, lemma_replay_removals, rows_replayed,
    rows_unfinished, rows_upserted,
};

verus! {

/// No task id appears twice in a well-formed queue: the three sequences
/// together form a set.
pub proof fn lemma_ids_form_a_set(q: QueueView<UploadTaskView>)
    requires
        well_formed(q),
    ensures
        q.all_keys().no_duplicates(),
{
    lemma_keys_form_a_set(q);
}

/// Whenever an upload is not refused, the queue lists it afterwards as
/// its youngest running task, in progress, and lists it once.
pub proof fn lemma_enqueued_is_listed(
    q: QueueView<UploadTaskView>,
    id: Seq<char>,
    parent: Option<Seq<char>>,
    name: Seq<char>,
    path: Seq<char>,
    size: u64,
    now: i64,
)
    requires
        well_formed(q),
        enqueue_rejection(q, id, parent, name, path) is None,
    ensures
        ({
            let task = fresh_upload(id, parent, name, path, size, now);
            &&& after_enqueue(q, task).active.last() == task
            &&& after_enqueue(q, task).active.last().status == UploadStatus::InProgress
            &&& is_active(after_enqueue(q, task), id)
            &&& after_enqueue(q, task).occurrences(id) == 1
        }),
{
    let task = fresh_upload(id, parent, name, path, size, now);
    let r = after_enqueue(q, task);
    lemma_first_index(q.active, conflicts_with(id, name, parent));
    lemma_enqueue_well_formed(q, task);
    lemma_count_push(q.active, task, task.task_id);
    lemma_count_positive(r.active, task.task_id);
    assert(r.occurrences(task.task_id) <= 1);
}

/// The progress events of an upload never go back: of two ticks that the
/// queue takes one after the other, the later reports at least as many
/// bytes as the earlier, and the bytes recorded in between do not pass the
/// size.
pub proof fn lemma_progress_never_goes_back(
    q: QueueView<UploadTaskView>,
    id: Seq<char>,
    first: u64,
    first_size: Option<u64>,
    next: u64,
    next_size: Option<u64>,
)
    requires
        takes_tick(q, id, first, first_size),
        takes_tick(after_progress(q, id, first, first_size), id, next, next_size),
    ensures
        first <= next,
        after_progress(q, id, first, first_size).active[active_position(q, id)].bytes_uploaded
            == Some(first),
        within_size(after_progress(q, id, first, first_size).active[active_position(q, id)]),
{
    let p = key_is::<UploadTaskView>(id);
    let pos = active_position(q, id);
    let q1 = after_progress(q, id, first, first_size);
    lemma_first_index(q.active, p);
    lemma_first_index_is(q1.active, p, pos);
}

/// After the terminal transition of a running task, the task is no longer
/// listed as running and is listed exactly once among the completed, the
/// failed and the cancelled tasks.
pub proof fn lemma_finished_is_listed_once(
    q: QueueView<UploadTaskView>,
    id: Seq<char>,
    text: Seq<char>,
    now: i64,
)
    requires
        well_formed(q),
        is_active(q, id),
    ensures
        ({
            let r = after_success(q, id, text, now);
            count_key(r.active, id) == 0 && count_key(r.completed, id) == 1 && count_key(
                r.failed,
                id,
            ) == 0
        }),
        ({
            let r = after_failure(q, id, text, now);
            count_key(r.active, id) == 0 && count_key(r.completed, id) == 0 && count_key(
                r.failed,
                id,
            ) == 1
        }),
        ({
            let r = after_cancelled(q, id, now);
            count_key(r.active, id) == 0 && count_key(r.completed, id) == 0 && count_key(
                r.failed,
                id,
            ) == 1
        }),
{
    let pos = active_position(q, id);
    lemma_first_index(q.active, key_is::<UploadTaskView>(id));
    assert(q.occurrences(id) <= 1);
    lemma_count_remove(q.active, pos, id);
    let t = q.active[pos];
    lemma_count_insert_front(
        q.completed,
        crate::upload_manager::queue::succeeded(t, text, now),
        id,
    );
    lemma_count_insert_front(q.failed, crate::upload_manager::queue::failed_with(t, text, now), id);
    lemma_count_insert_front(q.failed, crate::upload_manager::queue::cancelled(t, now), id);
}

/// Clearing the history a second time changes nothing, and neither does
/// clearing the failed tasks a second time.
pub proof fn lemma_clear_history_idempotent(q: QueueView<UploadTaskView>)
    ensures
        after_clear_history(after_clear_history(q)) == after_clear_history(q),
        after_clear_failed(after_clear_failed(q)) == after_clear_failed(q),
{
}

/// Clearing the finished rows of a store a second time changes nothing.
pub proof fn lemma_clear_rows_idempotent(rows: Seq<UploadTaskView>)
    ensures
        rows_unfinished(rows_unfinished(rows)) == rows_unfinished(rows),
{
    lemma_filter_elements(rows, running());
    lemma_filter_all_true(rows_unfinished(rows), running());
}

/// A task can be removed right after it was asked to stop, before its
/// worker has noticed: the queue no longer lists it, and the worker, when
/// it next polls with its ticket, is told to stop.
pub proof fn lemma_cancel_then_remove(
    q: QueueView<UploadTaskView>,
    registry: RegistryView,
    id: Seq<char>,
    ticket: u64,
)
    requires
        well_formed(q),
        registry.well_formed(),
        registry.is_registered(id),
    ensures
        well_formed(after_remove(q, id)),
        after_remove(q, id).occurrences(id) == 0,
        registry.after_signal(id).after_signal(id).after_clear(id).must_stop(id, ticket),
{
    crate::upload_manager::queue::lemma_remove_well_formed(q, id);
    lemma_count_without(q.active, id, id);
    lemma_count_without(q.completed, id, id);
    lemma_count_without(q.failed, id, id);
    crate::cancel::lemma_cleared_is_absent(registry.after_signal(id).after_signal(id), id);
}

/// Two snapshots of a queue that was not changed in between are equal.
pub proof fn lemma_snapshot_pure(
    q: QueueView<UploadTaskView>,
    first: UploadQueueState,
    second: UploadQueueState,
)
    requires
        first@ == q,
        second@ == q,
    ensures
        first@ == second@,
        first@.active == second@.active,
        first@.completed == second@.completed,
        first@.failed == second@.failed,
{
}

/// The rows of a store from which every row that conflicts with `task`
/// was taken before the row of `task` was written.
spec fn rows_after_enqueue(rows: Seq<UploadTaskView>, task: UploadTaskView) -> Seq<
    UploadTaskView,
> {
    rows_upserted(rows.filter(clear_of(task.task_id, task.file_name, task.parent_id)), task)
}

/// A restart finds every stored task again: under every key the
/// rebuilt queue holds what the store held first under it, unfinished tasks that cannot be
/// resumed filed as failed.
pub proof fn lemma_restart_keeps_tasks(rows: Seq<UploadTaskView>, now: i64, k: Seq<char>)
    ensures
        find(restored(rows, now).all(), k) == found_then(find(rows, k), settled(now)),
{
    let kept = first_occurrences(rows);
    let all = rows_settled(rows, now);
    lemma_first_occurrences(rows, k);
    lemma_find_first_occurrences(rows, k);
    lemma_find_map(kept, settled(now), k);
    lemma_count_map(kept, settled(now), k);
    assert(three_way(running(), finished(), unsuccessful()));
    lemma_find_in_parts(
        all,
        running(),
        finished(),
        unsuccessful(),
        UploadTask::rank(SortKey::Started),
        UploadTask::rank(SortKey::Finished),
        UploadTask::rank(SortKey::Finished),
        k,
    );
}

/// Taking the conflicting rows and writing the new one keeps store and
/// queue in step.
proof fn lemma_cleared_rows_mirror(
    q: QueueView<UploadTaskView>,
    rows: Seq<UploadTaskView>,
    task: UploadTaskView,
)
    requires
        well_formed(q),
        unique_keys(rows),
        same_tasks(rows, q.all()),
        task.status == UploadStatus::InProgress,
        task.completed_at is None,
        first_index(q.active, conflicts_with(task.task_id, task.file_name, task.parent_id))
            == q.active.len(),
    ensures
        unique_keys(rows_after_enqueue(rows, task)),
        same_tasks(rows_after_enqueue(rows, task), after_enqueue(q, task).all()),
{
    let id = task.task_id;
    let stays = clear_of(id, task.file_name, task.parent_id);
    let busy = conflicts_with(id, task.file_name, task.parent_id);
    let q2 = after_enqueue(q, task);
    let kept = rows.filter(stays);
    let rows2 = rows_after_enqueue(rows, task);
    lemma_enqueue_well_formed(q, task);
    lemma_keys_form_a_set(q);
    lemma_keys_form_a_set(q2);
    lemma_first_index(q.active, busy);
    lemma_filter_elements(rows, stays);
    // The kept rows hold no row under the id of the new task.
    lemma_count_positive(kept, id);
    assert forall|i: int| 0 <= i < kept.len() implies (#[trigger] kept[i]).key() != id by {
        assert(stays(kept[i]));
    }
    lemma_first_index(kept, key_is::<UploadTaskView>(id));
    assert(rows2 == kept.push(task));
    assert forall|k: Seq<char>| #[trigger] count_key(rows2, k) <= 1 by {
        assert(count_key(rows, k) <= 1);
        lemma_count_filter(rows, stays, k);
        lemma_count_push(kept, task, k);
    }
    assert forall|k: Seq<char>| #[trigger] find(rows2, k) == find(q2.all(), k) by {
        assert(find(rows, k) == find(q.all(), k));
        assert(count_key(rows, k) <= 1);
        assert(count_key(q.all(), k) <= 1);
        lemma_find_push(kept, task, k);
        lemma_find_filter(rows, stays, k);
        // The queue side, sequence by sequence.
        lemma_find_add(q.active + q.completed, q.failed, k);
        lemma_find_add(q.active, q.completed, k);
        lemma_find_add(q2.active + q2.completed, q2.failed, k);
        lemma_find_add(q2.active, q2.completed, k);
        lemma_find_push(q.active, task, k);
        crate::queue_model::lemma_count_add(q.active + q.completed, q.failed, k);
        crate::queue_model::lemma_count_add(q.active, q.completed, k);
        lemma_find_filter(q.completed, stays, k);
        lemma_find_filter(q.failed, stays, k);
        lemma_find_none(q.active, k);
        lemma_find_none(q.completed, k);
        lemma_find_none(q.failed, k);
        if find(q.active, k) is Some {
            let t = find(q.active, k)->0;
            let i = choose|i: int| 0 <= i < q.active.len() && q.active[i] == t;
            assert(!busy(q.active[i]));
            assert(stays(t));
        }
        if k == id {
            lemma_count_positive(q.active, k);
            assert forall|i: int| 0 <= i < q.active.len() implies (#[trigger] q.active[i]).key()
                != k by {
                assert(!busy(q.active[i]));
            }
            if find(q.completed, k) is Some {
                assert(!stays(find(q.completed, k)->0));
            }
            if find(q.failed, k) is Some {
                assert(!stays(find(q.failed, k)->0));
            }
        }
    }
}

/// What accepting `task` asks of the store: to delete the rows that the
/// upload supersedes and then to write its row.
pub open spec fn enqueue_requests(q: QueueView<UploadTaskView>, task: UploadTaskView) -> Seq<
    StoreRequest<UploadTaskView>,
> {
    removals(superseded_rows(q, task)).push(StoreRequest::Upsert(task))
}

/// Accepting an upload keeps store and queue in step: if they held the
/// same tasks before and the store does what the manager asks, they hold
/// the same tasks after. The rows are those of a table keyed by task id,
/// which holds no id twice.
pub proof fn lemma_enqueue_keeps_mirror(
    q: QueueView<UploadTaskView>,
    rows: Seq<UploadTaskView>,
    task: UploadTaskView,
)
    requires
        well_formed(q),
        unique_keys(rows),
        same_tasks(rows, q.all()),
        task.status == UploadStatus::InProgress,
        task.completed_at is None,
        first_index(q.active, conflicts_with(task.task_id, task.file_name, task.parent_id))
            == q.active.len(),
    ensures
        unique_keys(rows_replayed(rows, enqueue_requests(q, task))),
        same_tasks(rows_replayed(rows, enqueue_requests(q, task)), after_enqueue(q, task).all()),
{
    let hit = conflicts_with(task.task_id, task.file_name, task.parent_id);
    let stays = clear_of(task.task_id, task.file_name, task.parent_id);
    let gone_failed = q.failed.filter(hit);
    let gone_completed = q.completed.filter(hit);
    let ids = superseded_rows(q, task);
    let left = without_keys(rows, ids);
    let kept = rows.filter(stays);
    let after = rows_replayed(rows, enqueue_requests(q, task));
    lemma_replay_removals(rows, ids);
    lemma_replay_push(rows, removals(ids), StoreRequest::Upsert(task));
    assert(after == placed(left, task));
    assert(rows_after_enqueue(rows, task) == placed(kept, task));
    lemma_find_without_keys(rows, ids, task.task_id);
    lemma_placed_unique(left, task);
    lemma_cleared_rows_mirror(q, rows, task);
    lemma_keys_form_a_set(q);
    lemma_first_index(q.active, hit);
    lemma_filter_elements(q.failed, hit);
    lemma_filter_elements(q.completed, hit);
    assert forall|k: Seq<char>| #[trigger] find(after, k) == find(after_enqueue(q, task).all(), k) by {
        lemma_find_placed(left, task, k);
        lemma_find_placed(kept, task, k);
        lemma_find_without_keys(rows, ids, k);
        assert(count_key(rows, k) <= 1);
        lemma_find_filter(rows, stays, k);
        assert(find(rows, k) == find(q.all(), k));
        assert(find(rows_after_enqueue(rows, task), k) == find(after_enqueue(q, task).all(), k));
        lemma_find_none(q.all(), k);
        if find(rows, k) is Some {
            let t = find(rows, k)->0;
            assert(q.all().contains(t) && t.key() == k);
            assert(stays(t) == !hit(t));
            if hit(t) {
                let i = choose|i: int| 0 <= i < q.all().len() && q.all()[i] == t;
                if i < q.active.len() {
                    assert(q.active[i] == t);
                    assert(!hit(q.active[i]));
                } else if i < q.active.len() + q.completed.len() {
                    assert(q.completed[i - q.active.len()] == t);
                    lemma_filter_keeps(q.completed, hit, t);
                    let j = choose|j: int| 0 <= j < gone_completed.len() && gone_completed[j] == t;
                    assert(ids[gone_failed.len() + j] == k);
                } else {
                    assert(q.failed[i - q.active.len() - q.completed.len()] == t);
                    lemma_filter_keeps(q.failed, hit, t);
                    let j = choose|j: int| 0 <= j < gone_failed.len() && gone_failed[j] == t;
                    assert(ids[j] == k);
                }
                assert(ids.contains(k));
            }
            if ids.contains(k) {
                let i = choose|i: int| 0 <= i < ids.len() && ids[i] == k;
                let u = if i < gone_failed.len() {
                    gone_failed[i]
                } else {
                    gone_completed[i - gone_failed.len()]
                };
                assert(u.key() == k && hit(u));
                if i < gone_failed.len() {
                    assert(q.failed.contains(u));
                    let j = choose|j: int| 0 <= j < q.failed.len() && q.failed[j] == u;
                    assert(q.all()[q.active.len() + q.completed.len() + j] == u);
                } else {
                    assert(q.completed.contains(u));
                    let j = choose|j: int| 0 <= j < q.completed.len() && q.completed[j] == u;
                    assert(q.all()[q.active.len() + j] == u);
                }
                assert(count_key(q.all(), k) <= 1);
                lemma_find_unique(q.all(), u);
                assert(u == t);
            }
        }
    }
}

/// The terminal transition of a running upload keeps store and queue in
/// step, if the store does what the manager asks.
pub proof fn lemma_finish_keeps_mirror(
    q: QueueView<UploadTaskView>,
    rows: Seq<UploadTaskView>,
    id: Seq<char>,
    text: Seq<char>,
    now: i64,
)
    requires
        well_formed(q),
        unique_keys(rows),
        same_tasks(rows, q.all()),
        is_active(q, id),
    ensures
        ({
            let done = after_success(q, id, text, now);
            let after = rows_replayed(rows, seq![StoreRequest::Upsert(done.completed[0])]);
            unique_keys(after) && same_tasks(after, done.all())
        }),
        ({
            let done = after_failure(q, id, text, now);
            let after = rows_replayed(rows, seq![StoreRequest::Upsert(done.failed[0])]);
            unique_keys(after) && same_tasks(after, done.all())
        }),
        ({
            let done = after_cancelled(q, id, now);
            let after = rows_replayed(rows, seq![StoreRequest::Upsert(done.failed[0])]);
            unique_keys(after) && same_tasks(after, done.all())
        }),
{
    let pos = active_position(q, id);
    let t = q.active[pos];
    lemma_first_index(q.active, key_is::<UploadTaskView>(id));
    assert(q.occurrences(id) <= 1);
    let won = after_success(q, id, text, now);
    let lost = after_failure(q, id, text, now);
    let left = after_cancelled(q, id, now);
    let good = succeeded(t, text, now);
    let bad = failed_with(t, text, now);
    let off = cancelled(t, now);
    lemma_replay_one(rows, StoreRequest::Upsert(good));
    lemma_replay_one(rows, StoreRequest::Upsert(bad));
    lemma_replay_one(rows, StoreRequest::Upsert(off));
    assert(rows_upserted(rows, good) == placed(rows, good));
    assert(rows_upserted(rows, bad) == placed(rows, bad));
    assert(rows_upserted(rows, off) == placed(rows, off));
    lemma_placed_unique(rows, good);
    lemma_placed_unique(rows, bad);
    lemma_placed_unique(rows, off);
    assert forall|k: Seq<char>| #[trigger] find(placed(rows, good), k) == find(won.all(), k) by {
        assert(find(rows, k) == find(q.all(), k));
        lemma_find_placed(rows, good, k);
        lemma_find_in_queue(q, k);
        lemma_find_in_queue(won, k);
        lemma_find_remove(q.active, pos, k);
        lemma_find_insert_front(q.completed, good, k);
        lemma_find_none(q.active, k);
        lemma_find_none(q.completed, k);
        lemma_find_none(q.failed, k);
        assert(q.occurrences(k) <= 1);
        lemma_count_positive(q.active, id);
    }
    assert forall|k: Seq<char>| #[trigger] find(placed(rows, bad), k) == find(lost.all(), k) by {
        assert(find(rows, k) == find(q.all(), k));
        lemma_find_placed(rows, bad, k);
        lemma_find_in_queue(q, k);
        lemma_find_in_queue(lost, k);
        lemma_find_remove(q.active, pos, k);
        lemma_find_insert_front(q.failed, bad, k);
        lemma_find_none(q.active, k);
        lemma_find_none(q.completed, k);
        lemma_find_none(q.failed, k);
        assert(q.occurrences(k) <= 1);
        lemma_count_positive(q.active, id);
    }
    assert forall|k: Seq<char>| #[trigger] find(placed(rows, off), k) == find(left.all(), k) by {
        assert(find(rows, k) == find(q.all(), k));
        lemma_find_placed(rows, off, k);
        lemma_find_in_queue(q, k);
        lemma_find_in_queue(left, k);
        lemma_find_remove(q.active, pos, k);
        lemma_find_insert_front(q.failed, off, k);
        lemma_find_none(q.active, k);
        lemma_find_none(q.completed, k);
        lemma_find_none(q.failed, k);
        assert(q.occurrences(k) <= 1);
        lemma_count_positive(q.active, id);
    }
}

/// Removing an upload keeps store and queue in step, if the store does
/// what the manager asks.
pub proof fn lemma_remove_keeps_mirror(q: QueueView<UploadTaskView>, rows: Seq<UploadTaskView>, id: Seq<char>)
    requires
        well_formed(q),
        unique_keys(rows),
        same_tasks(rows, q.all()),
    ensures
        unique_keys(rows_replayed(rows, seq![StoreRequest::Remove(id)])),
        same_tasks(rows_replayed(rows, seq![StoreRequest::Remove(id)]), after_remove(q, id).all()),
{
    let gone = key_is_not::<UploadTaskView>(id);
    let after = without_key(rows, id);
    let q2 = after_remove(q, id);
    lemma_replay_one(rows, StoreRequest::Remove(id));
    lemma_keys_form_a_set(q);
    assert forall|k: Seq<char>| #[trigger] count_key(after, k) <= 1 by {
        assert(count_key(rows, k) <= 1);
        lemma_count_without(rows, id, k);
    }
    assert forall|k: Seq<char>| #[trigger] find(after, k) == find(q2.all(), k) by {
        assert(find(rows, k) == find(q.all(), k));
        assert(count_key(rows, k) <= 1);
        assert(q.occurrences(k) <= 1);
        lemma_find_filter(rows, gone, k);
        lemma_find_filter(q.active, gone, k);
        lemma_find_filter(q.completed, gone, k);
        lemma_find_filter(q.failed, gone, k);
        lemma_find_in_queue(q, k);
        lemma_find_in_queue(q2, k);
        lemma_find_none(rows, k);
        lemma_find_none(q.active, k);
        lemma_find_none(q.completed, k);
        lemma_find_none(q.failed, k);
    }
}

/// Clearing the history or the failed uploads keeps store and queue in
/// step, if the store does what the manager asks.
pub proof fn lemma_clear_keeps_mirror(q: QueueView<UploadTaskView>, rows: Seq<UploadTaskView>)
    requires
        well_formed(q),
        unique_keys(rows),
        same_tasks(rows, q.all()),
    ensures
        unique_keys(rows_replayed(rows, seq![StoreRequest::ClearHistory])),
        same_tasks(
            rows_replayed(rows, seq![StoreRequest::ClearHistory]),
            after_clear_history(q).all(),
        ),
        unique_keys(rows_replayed(rows, removals(keys_of(q.failed)))),
        same_tasks(
            rows_replayed(rows, removals(keys_of(q.failed))),
            after_clear_failed(q).all(),
        ),
{
    let kept = rows_unfinished(rows);
    let q2 = after_clear_history(q);
    let q3 = after_clear_failed(q);
    let ids = keys_of(q.failed);
    let left = without_keys(rows, ids);
    lemma_replay_one(rows, StoreRequest::ClearHistory);
    lemma_replay_removals(rows, ids);
    lemma_keys_form_a_set(q);
    lemma_find_without_keys(rows, ids, Seq::empty());
    assert forall|k: Seq<char>| #[trigger] count_key(kept, k) <= 1 by {
        assert(count_key(rows, k) <= 1);
        lemma_count_filter(rows, running(), k);
    }
    assert forall|k: Seq<char>| #[trigger] find(kept, k) == find(q2.all(), k) by {
        assert(find(rows, k) == find(q.all(), k));
        assert(count_key(rows, k) <= 1);
        assert(q.occurrences(k) <= 1);
        lemma_find_filter(rows, running(), k);
        lemma_find_in_queue(q, k);
        lemma_find_in_queue(q2, k);
        lemma_find_none(q.active, k);
        lemma_find_none(q.completed, k);
        lemma_find_none(q.failed, k);
        lemma_find_none(Seq::<UploadTaskView>::empty(), k);
        if find(q.active, k) is Some {
            let t = find(q.active, k)->0;
            let i = choose|i: int| 0 <= i < q.active.len() && q.active[i] == t;
            assert(q.active[i].status == UploadStatus::InProgress);
        }
        if find(q.completed, k) is Some {
            let t = find(q.completed, k)->0;
            let i = choose|i: int| 0 <= i < q.completed.len() && q.completed[i] == t;
            assert(q.completed[i].status == UploadStatus::Completed);
        }
        if find(q.failed, k) is Some {
            let t = find(q.failed, k)->0;
            let i = choose|i: int| 0 <= i < q.failed.len() && q.failed[i] == t;
            assert(q.failed[i].status != UploadStatus::InProgress);
        }
    }
    assert forall|k: Seq<char>| #[trigger] find(left, k) == find(q3.all(), k) by {
        assert(find(rows, k) == find(q.all(), k));
        assert(q.occurrences(k) <= 1);
        lemma_find_without_keys(rows, ids, k);
        lemma_find_in_queue(q, k);
        lemma_find_in_queue(q3, k);
        lemma_find_none(q.active, k);
        lemma_find_none(q.completed, k);
        lemma_find_none(q.failed, k);
        lemma_find_none(Seq::<UploadTaskView>::empty(), k);
        if find(q.failed, k) is Some {
            let t = find(q.failed, k)->0;
            let i = choose|i: int| 0 <= i < q.failed.len() && q.failed[i] == t;
            assert(ids[i] == k);
        }
        if ids.contains(k) {
            let i = choose|i: int| 0 <= i < ids.len() && ids[i] == k;
            assert(q.failed[i].key() == k);
            lemma_count_positive(q.failed, k);
        }
    }
}

/// A progress tick that is stored, and a session that is recorded, keep
/// store and queue in step, if the store does what the manager asks.
pub proof fn lemma_update_keeps_mirror(
    q: QueueView<UploadTaskView>,
    rows: Seq<UploadTaskView>,
    id: Seq<char>,
    bytes: u64,
    total: Option<u64>,
    url: Option<Seq<char>>,
)
    requires
        well_formed(q),
        unique_keys(rows),
        same_tasks(rows, q.all()),
        is_active(q, id),
    ensures
        takes_tick(q, id, bytes, total) ==> ({
            let task = progressed(q.active[active_position(q, id)], bytes, total);
            let after = rows_replayed(rows, seq![StoreRequest::Upsert(task)]);
            unique_keys(after) && same_tasks(after, after_progress(q, id, bytes, total).all())
        }),
        ({
            let task = after_session(q, id, url).active[active_position(q, id)];
            let after = rows_replayed(rows, seq![StoreRequest::Upsert(task)]);
            unique_keys(after) && same_tasks(after, after_session(q, id, url).all())
        }),
{
    let pos = active_position(q, id);
    let ticked = progressed(q.active[pos], bytes, total);
    let q2 = after_progress(q, id, bytes, total);
    let q3 = after_session(q, id, url);
    let opened = q3.active[pos];
    lemma_first_index(q.active, key_is::<UploadTaskView>(id));
    lemma_replay_one(rows, StoreRequest::Upsert(ticked));
    lemma_replay_one(rows, StoreRequest::Upsert(opened));
    assert(rows_upserted(rows, ticked) == placed(rows, ticked));
    assert(rows_upserted(rows, opened) == placed(rows, opened));
    lemma_placed_unique(rows, ticked);
    lemma_placed_unique(rows, opened);
    if takes_tick(q, id, bytes, total) {
        assert forall|k: Seq<char>| #[trigger] find(placed(rows, ticked), k) == find(q2.all(), k) by {
            assert(find(rows, k) == find(q.all(), k));
            lemma_find_placed(rows, ticked, k);
            lemma_find_update(q.active, pos, ticked, k);
            lemma_find_in_queue(q, k);
            lemma_find_in_queue(q2, k);
        }
    }
    assert forall|k: Seq<char>| #[trigger] find(placed(rows, opened), k) == find(q3.all(), k) by {
        assert(find(rows, k) == find(q.all(), k));
        lemma_find_placed(rows, opened, k);
        lemma_find_update(q.active, pos, opened, k);
        lemma_find_in_queue(q, k);
        lemma_find_in_queue(q3, k);
    }
}

/// Round trip through the store: accept an upload, let the store do what
/// the manager asks, restart, and the rebuilt queue holds under every key
/// the task that the queue held before the restart, unfinished tasks that
/// cannot be resumed filed as failed.
pub proof fn lemma_round_trip(
    q: QueueView<UploadTaskView>,
    rows: Seq<UploadTaskView>,
    task: UploadTaskView,
    now: i64,
    k: Seq<char>,
)
    requires
        well_formed(q),
        unique_keys(rows),
        same_tasks(rows, q.all()),
        task.status == UploadStatus::InProgress,
        task.completed_at is None,
        first_index(q.active, conflicts_with(task.task_id, task.file_name, task.parent_id))
            == q.active.len(),
    ensures
        find(restored(rows_replayed(rows, enqueue_requests(q, task)), now).all(), k)
            == found_then(find(after_enqueue(q, task).all(), k), settled(now)),
{
    let after = rows_replayed(rows, enqueue_requests(q, task));
    lemma_enqueue_keeps_mirror(q, rows, task);
    lemma_restart_keeps_tasks(after, now, k);
    assert(find(after, k) == find(after_enqueue(q, task).all(), k));
}

} // verus!
