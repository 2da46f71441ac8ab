//! What holds of the download queue whatever is done with it.

use vstd::prelude::*;

use crate::cancel::RegistryView;
use crate::download_manager::queue::{
    active_position, after_clear_failed, after_clear_history, after_enqueue, after_failure,
    after_progress, after_remove, after_success, enqueue_rejection, failed_with,
    fresh_download, is_active, lemma_enqueue_well_formed, lemma_remove_well_formed, progressed,
    succeeded, takes_tick, well_formed, within_size,
};
use crate::download_manager::restore::{
    finished, restored, rows_settled, running, settled, unsuccessful,
};
use crate::download_manager::storage::{
    lemma_replay_one, lemma_replay_removals, rows_replayed, rows_unfinished, rows_upserted,
};
use crate::models::{
    DownloadQueueState, DownloadStatus, DownloadTask, DownloadTaskView, DriveItemSummaryView,
    QueueView,
};
use crate::queue_model::{
    count_key, first_index, first_occurrences, key_is, key_is_not, lemma_count_add,
    lemma_count_insert_front, lemma_count_map, lemma_count_positive, lemma_count_push,
    lemma_count_remove, lemma_count_update, lemma_count_without, lemma_filter_all_true,
    keys_of, lemma_count_filter, lemma_filter_elements, lemma_first_index,
    lemma_first_index_is, lemma_first_occurrences, lemma_keys_form_a_set, removals, three_way,
    without_key, StoreRequest, TaskRecord,
};
use crate::sorting::{Ranked, SortKey};
use crate::task_sets::{
    find, found_then, lemma_find_add, lemma_find_filter, lemma_find_first_occurrences,
    lemma_find_in_parts, lemma_find_in_queue, lemma_find_insert_front, lemma_find_map,
    lemma_find_none, lemma_find_placed, lemma_find_push, lemma_find_remove, lemma_find_update,
    lemma_find_without_keys, lemma_placed_unique, placed, same_tasks, unique_keys,
    without_keys,
};

verus! {

/// No item appears twice in a well-formed queue: the three sequences
/// together form a set.
pub proof fn lemma_ids_form_a_set(q: QueueView<DownloadTaskView>)
    requires
        well_formed(q),
    ensures
        q.all_keys().no_duplicates(),
{
    lemma_keys_form_a_set(q);
}

/// Whenever a download is not refused, the queue lists it afterwards as
/// its youngest running task, in progress, and lists it once.
pub proof fn lemma_enqueued_is_listed(
    q: QueueView<DownloadTaskView>,
    item: DriveItemSummaryView,
    target: Seq<char>,
    now: i64,
)
    requires
        well_formed(q),
        enqueue_rejection(q, item.id, target) is None,
    ensures
        after_enqueue(q, fresh_download(item, now)).active.last() == fresh_download(item, now),
        after_enqueue(q, fresh_download(item, now)).active.last().status
            == DownloadStatus::InProgress,
        is_active(after_enqueue(q, fresh_download(item, now)), item.id),
        after_enqueue(q, fresh_download(item, now)).occurrences(item.id) == 1,
{
    let task = fresh_download(item, now);
    let r = after_enqueue(q, task);
    lemma_enqueue_well_formed(q, task);
    lemma_count_push(q.active, task, task.item.id);
    lemma_count_positive(r.active, task.item.id);
    assert(r.occurrences(task.item.id) <= 1);
}

/// The progress events of a download never go back: of two ticks that the
/// queue takes one after the other, the later reports at least as many
/// bytes as the earlier, and the bytes recorded in between do not pass the
/// size.
pub proof fn lemma_progress_never_goes_back(
    q: QueueView<DownloadTaskView>,
    id: Seq<char>,
    first: u64,
    first_size: Option<u64>,
    next: u64,
    next_size: Option<u64>,
)
    requires
        takes_tick(q, id, first, first_size),
        takes_tick(after_progress(q, id, first, first_size), id, next, next_size),
    ensures
        first <= next,
        after_progress(q, id, first, first_size).active[active_position(q, id)].bytes_downloaded
            == Some(first),
        within_size(after_progress(q, id, first, first_size).active[active_position(q, id)]),
{
    let p = key_is::<DownloadTaskView>(id);
    let pos = active_position(q, id);
    let q1 = after_progress(q, id, first, first_size);
    lemma_first_index(q.active, p);
    lemma_first_index_is(q1.active, p, pos);
}

/// After the terminal transition of a running download, the download is no
/// longer listed as running and is listed exactly once among the completed
/// and the failed tasks.
pub proof fn lemma_finished_is_listed_once(
    q: QueueView<DownloadTaskView>,
    id: Seq<char>,
    text: Seq<char>,
    bytes: u64,
    expected: Option<u64>,
    now: i64,
)
    requires
        well_formed(q),
        is_active(q, id),
    ensures
        ({
            let r = after_success(q, id, text, bytes, expected, now);
            count_key(r.active, id) == 0 && count_key(r.completed, id) == 1 && count_key(
                r.failed,
                id,
            ) == 0
        }),
        ({
            let r = after_failure(q, id, text, now);
            count_key(r.active, id) == 0 && count_key(r.completed, id) == 0 && count_key(
                r.failed,
                id,
            ) == 1
        }),
{
    let pos = active_position(q, id);
    lemma_first_index(q.active, key_is::<DownloadTaskView>(id));
    assert(q.occurrences(id) <= 1);
    lemma_count_remove(q.active, pos, id);
    let t = q.active[pos];
    lemma_count_insert_front(q.completed, succeeded(t, text, bytes, expected, now), id);
    lemma_count_insert_front(q.failed, failed_with(t, text, now), id);
}

/// Clearing the history a second time changes nothing, and neither does
/// clearing the failed tasks a second time.
pub proof fn lemma_clear_history_idempotent(q: QueueView<DownloadTaskView>)
    ensures
        after_clear_history(after_clear_history(q)) == after_clear_history(q),
        after_clear_failed(after_clear_failed(q)) == after_clear_failed(q),
{
}

/// Clearing the finished rows of a store a second time changes nothing.
pub proof fn lemma_clear_rows_idempotent(rows: Seq<DownloadTaskView>)
    ensures
        rows_unfinished(rows_unfinished(rows)) == rows_unfinished(rows),
{
    lemma_filter_elements(rows, running());
    lemma_filter_all_true(rows_unfinished(rows), running());
}

/// A download can be removed right after it was asked to stop, before its
/// worker has noticed: the queue no longer lists it, and the worker, when
/// it next polls with its ticket, is told to stop.
pub proof fn lemma_cancel_then_remove(
    q: QueueView<DownloadTaskView>,
    registry: RegistryView,
    id: Seq<char>,
    ticket: u64,
)
    requires
        well_formed(q),
        registry.well_formed(),
        registry.is_registered(id),
    ensures
        well_formed(after_remove(q, id)),
        after_remove(q, id).occurrences(id) == 0,
        registry.after_signal(id).after_signal(id).after_clear(id).must_stop(id, ticket),
{
    lemma_remove_well_formed(q, id);
    lemma_count_without(q.active, id, id);
    lemma_count_without(q.completed, id, id);
    lemma_count_without(q.failed, id, id);
    crate::cancel::lemma_cleared_is_absent(registry.after_signal(id).after_signal(id), id);
}

/// Two snapshots of a queue that was not changed in between are equal.
pub proof fn lemma_snapshot_pure(
    q: QueueView<DownloadTaskView>,
    first: DownloadQueueState,
    second: DownloadQueueState,
)
    requires
        first@ == q,
        second@ == q,
    ensures
        first@ == second@,
        first@.active == second@.active,
        first@.completed == second@.completed,
        first@.failed == second@.failed,
{
}

/// A restart finds every stored download again: under every key the
/// rebuilt queue holds what the store held first under it, unfinished downloads filed as
/// failed.
pub proof fn lemma_restart_keeps_tasks(rows: Seq<DownloadTaskView>, now: i64, k: Seq<char>)
    ensures
        find(restored(rows, now).all(), k) == found_then(find(rows, k), settled(now)),
{
    let kept = first_occurrences(rows);
    let all = rows_settled(rows, now);
    lemma_first_occurrences(rows, k);
    lemma_find_first_occurrences(rows, k);
    lemma_find_map(kept, settled(now), k);
    lemma_count_map(kept, settled(now), k);
    assert(three_way(running(), finished(), unsuccessful()));
    lemma_find_in_parts(
        all,
        running(),
        finished(),
        unsuccessful(),
        DownloadTask::rank(SortKey::Started),
        DownloadTask::rank(SortKey::Finished),
        DownloadTask::rank(SortKey::Finished),
        k,
    );
}

/// Accepting a download keeps store and queue in step: if they held the
/// same tasks before and the store does what the manager asks, they hold
/// the same tasks after. The rows are those of a table keyed by item id,
/// which holds no id twice.
pub proof fn lemma_enqueue_keeps_mirror(
    q: QueueView<DownloadTaskView>,
    rows: Seq<DownloadTaskView>,
    task: DownloadTaskView,
)
    requires
        well_formed(q),
        unique_keys(rows),
        same_tasks(rows, q.all()),
        task.status == DownloadStatus::InProgress,
        task.completed_at is None,
        !is_active(q, task.item.id),
    ensures
        rows_replayed(rows, seq![StoreRequest::Upsert(task)]) == rows_upserted(rows, task),
        unique_keys(rows_upserted(rows, task)),
        same_tasks(rows_upserted(rows, task), after_enqueue(q, task).all()),
{
    lemma_replay_one(rows, StoreRequest::Upsert(task));
    let id = task.item.id;
    let stays = key_is_not::<DownloadTaskView>(id);
    let q2 = after_enqueue(q, task);
    let rows2 = rows_upserted(rows, task);
    let pos = first_index(rows, key_is::<DownloadTaskView>(id));
    lemma_enqueue_well_formed(q, task);
    lemma_keys_form_a_set(q);
    lemma_first_index(q.active, key_is::<DownloadTaskView>(id));
    lemma_first_index(rows, key_is::<DownloadTaskView>(id));
    assert forall|k: Seq<char>| #[trigger] count_key(rows2, k) <= 1 by {
        assert(count_key(rows, k) <= 1);
        if pos < rows.len() {
            lemma_count_update(rows, pos, task, k);
        } else {
            lemma_count_push(rows, task, k);
            lemma_count_positive(rows, id);
        }
    }
    assert forall|k: Seq<char>| #[trigger] find(rows2, k) == find(q2.all(), k) by {
        assert(find(rows, k) == find(q.all(), k));
        assert(count_key(q.all(), k) <= 1);
        if pos < rows.len() {
            lemma_find_update(rows, pos, task, k);
        } else {
            lemma_find_push(rows, task, k);
        }
        lemma_find_add(q.active + q.completed, q.failed, k);
        lemma_find_add(q.active, q.completed, k);
        lemma_find_add(q2.active + q2.completed, q2.failed, k);
        lemma_find_add(q2.active, q2.completed, k);
        lemma_find_push(q.active, task, k);
        lemma_count_add(q.active + q.completed, q.failed, k);
        lemma_count_add(q.active, q.completed, k);
        lemma_find_filter(q.completed, stays, k);
        lemma_find_filter(q.failed, stays, k);
        lemma_find_none(q.active, k);
        lemma_find_none(q.completed, k);
        lemma_find_none(q.failed, k);
        lemma_find_none(rows, k);
        if find(q.completed, k) is Some {
            assert(stays(find(q.completed, k)->0) == (k != id));
        }
        if find(q.failed, k) is Some {
            assert(stays(find(q.failed, k)->0) == (k != id));
        }
    }
}

/// The terminal transition of a running download keeps store and queue
/// in step, if the store does what the manager asks.
pub proof fn lemma_finish_keeps_mirror(
    q: QueueView<DownloadTaskView>,
    rows: Seq<DownloadTaskView>,
    id: Seq<char>,
    text: Seq<char>,
    bytes: u64,
    expected: Option<u64>,
    now: i64,
)
    requires
        well_formed(q),
        unique_keys(rows),
        same_tasks(rows, q.all()),
        is_active(q, id),
    ensures
        ({
            let done = after_success(q, id, text, bytes, expected, now);
            let after = rows_replayed(rows, seq![StoreRequest::Upsert(done.completed[0])]);
            unique_keys(after) && same_tasks(after, done.all())
        }),
        ({
            let done = after_failure(q, id, text, now);
            let after = rows_replayed(rows, seq![StoreRequest::Upsert(done.failed[0])]);
            unique_keys(after) && same_tasks(after, done.all())
        }),
{
    let pos = active_position(q, id);
    let t = q.active[pos];
    lemma_first_index(q.active, key_is::<DownloadTaskView>(id));
    assert(q.occurrences(id) <= 1);
    let won = after_success(q, id, text, bytes, expected, now);
    let lost = after_failure(q, id, text, now);
    let good = succeeded(t, text, bytes, expected, now);
    let bad = failed_with(t, text, now);
    lemma_replay_one(rows, StoreRequest::Upsert(good));
    lemma_replay_one(rows, StoreRequest::Upsert(bad));
    assert(rows_upserted(rows, good) == placed(rows, good));
    assert(rows_upserted(rows, bad) == placed(rows, bad));
    lemma_placed_unique(rows, good);
    lemma_placed_unique(rows, bad);
    assert forall|k: Seq<char>| #[trigger] find(placed(rows, good), k) == find(won.all(), k) by {
        assert(find(rows, k) == find(q.all(), k));
        lemma_find_placed(rows, good, k);
        lemma_find_in_queue(q, k);
        lemma_find_in_queue(won, k);
        lemma_find_remove(q.active, pos, k);
        lemma_find_insert_front(q.completed, good, k);
        lemma_find_none(q.active, k);
        lemma_find_none(q.completed, k);
        lemma_find_none(q.failed, k);
        assert(q.occurrences(k) <= 1);
        lemma_count_positive(q.active, id);
    }
    assert forall|k: Seq<char>| #[trigger] find(placed(rows, bad), k) == find(lost.all(), k) by {
        assert(find(rows, k) == find(q.all(), k));
        lemma_find_placed(rows, bad, k);
        lemma_find_in_queue(q, k);
        lemma_find_in_queue(lost, k);
        lemma_find_remove(q.active, pos, k);
        lemma_find_insert_front(q.failed, bad, k);
        lemma_find_none(q.active, k);
        lemma_find_none(q.completed, k);
        lemma_find_none(q.failed, k);
        assert(q.occurrences(k) <= 1);
        lemma_count_positive(q.active, id);
    }
}

/// Removing a download keeps store and queue in step, if the store does
/// what the manager asks.
pub proof fn lemma_remove_keeps_mirror(
    q: QueueView<DownloadTaskView>,
    rows: Seq<DownloadTaskView>,
    id: Seq<char>,
)
    requires
        well_formed(q),
        unique_keys(rows),
        same_tasks(rows, q.all()),
    ensures
        unique_keys(rows_replayed(rows, seq![StoreRequest::Remove(id)])),
        same_tasks(rows_replayed(rows, seq![StoreRequest::Remove(id)]), after_remove(q, id).all()),
{
    let gone = key_is_not::<DownloadTaskView>(id);
    let after = without_key(rows, id);
    let q2 = after_remove(q, id);
    lemma_replay_one(rows, StoreRequest::Remove(id));
    lemma_keys_form_a_set(q);
    assert forall|k: Seq<char>| #[trigger] count_key(after, k) <= 1 by {
        assert(count_key(rows, k) <= 1);
        lemma_count_without(rows, id, k);
    }
    assert forall|k: Seq<char>| #[trigger] find(after, k) == find(q2.all(), k) by {
        assert(find(rows, k) == find(q.all(), k));
        assert(count_key(rows, k) <= 1);
        assert(q.occurrences(k) <= 1);
        lemma_find_filter(rows, gone, k);
        lemma_find_filter(q.active, gone, k);
        lemma_find_filter(q.completed, gone, k);
        lemma_find_filter(q.failed, gone, k);
        lemma_find_in_queue(q, k);
        lemma_find_in_queue(q2, k);
        lemma_find_none(rows, k);
        lemma_find_none(q.active, k);
        lemma_find_none(q.completed, k);
        lemma_find_none(q.failed, k);
    }
}

/// Clearing the history or the failed downloads keeps store and queue in
/// step, if the store does what the manager asks.
pub proof fn lemma_clear_keeps_mirror(q: QueueView<DownloadTaskView>, rows: Seq<DownloadTaskView>)
    requires
        well_formed(q),
        unique_keys(rows),
        same_tasks(rows, q.all()),
    ensures
        unique_keys(rows_replayed(rows, seq![StoreRequest::ClearHistory])),
        same_tasks(
            rows_replayed(rows, seq![StoreRequest::ClearHistory]),
            after_clear_history(q).all(),
        ),
        unique_keys(rows_replayed(rows, removals(keys_of(q.failed)))),
        same_tasks(
            rows_replayed(rows, removals(keys_of(q.failed))),
            after_clear_failed(q).all(),
        ),
{
    let kept = rows_unfinished(rows);
    let q2 = after_clear_history(q);
    let q3 = after_clear_failed(q);
    let ids = keys_of(q.failed);
    let left = without_keys(rows, ids);
    lemma_replay_one(rows, StoreRequest::ClearHistory);
    lemma_replay_removals(rows, ids);
    lemma_keys_form_a_set(q);
    lemma_find_without_keys(rows, ids, Seq::empty());
    assert forall|k: Seq<char>| #[trigger] count_key(kept, k) <= 1 by {
        assert(count_key(rows, k) <= 1);
        lemma_count_filter(rows, running(), k);
    }
    assert forall|k: Seq<char>| #[trigger] find(kept, k) == find(q2.all(), k) by {
        assert(find(rows, k) == find(q.all(), k));
        assert(count_key(rows, k) <= 1);
        assert(q.occurrences(k) <= 1);
        lemma_find_filter(rows, running(), k);
        lemma_find_in_queue(q, k);
        lemma_find_in_queue(q2, k);
        lemma_find_none(q.active, k);
        lemma_find_none(q.completed, k);
        lemma_find_none(q.failed, k);
        lemma_find_none(Seq::<DownloadTaskView>::empty(), k);
        if find(q.active, k) is Some {
            let t = find(q.active, k)->0;
            let i = choose|i: int| 0 <= i < q.active.len() && q.active[i] == t;
            assert(q.active[i].status == DownloadStatus::InProgress);
        }
        if find(q.completed, k) is Some {
            let t = find(q.completed, k)->0;
            let i = choose|i: int| 0 <= i < q.completed.len() && q.completed[i] == t;
            assert(q.completed[i].status == DownloadStatus::Completed);
        }
        if find(q.failed, k) is Some {
            let t = find(q.failed, k)->0;
            let i = choose|i: int| 0 <= i < q.failed.len() && q.failed[i] == t;
            assert(q.failed[i].status == DownloadStatus::Failed);
        }
    }
    assert forall|k: Seq<char>| #[trigger] find(left, k) == find(q3.all(), k) by {
        assert(find(rows, k) == find(q.all(), k));
        assert(q.occurrences(k) <= 1);
        lemma_find_without_keys(rows, ids, k);
        lemma_find_in_queue(q, k);
        lemma_find_in_queue(q3, k);
        lemma_find_none(q.active, k);
        lemma_find_none(q.completed, k);
        lemma_find_none(q.failed, k);
        lemma_find_none(Seq::<DownloadTaskView>::empty(), k);
        if find(q.failed, k) is Some {
            let t = find(q.failed, k)->0;
            let i = choose|i: int| 0 <= i < q.failed.len() && q.failed[i] == t;
            assert(ids[i] == k);
        }
        if ids.contains(k) {
            let i = choose|i: int| 0 <= i < ids.len() && ids[i] == k;
            assert(q.failed[i].key() == k);
            lemma_count_positive(q.failed, k);
        }
    }
}

/// A progress tick that is stored keeps store and queue in step, if the
/// store does what the manager asks.
pub proof fn lemma_progress_keeps_mirror(
    q: QueueView<DownloadTaskView>,
    rows: Seq<DownloadTaskView>,
    id: Seq<char>,
    bytes: u64,
    expected: Option<u64>,
)
    requires
        well_formed(q),
        unique_keys(rows),
        same_tasks(rows, q.all()),
        takes_tick(q, id, bytes, expected),
    ensures
        ({
            let task = progressed(q.active[active_position(q, id)], bytes, expected);
            let after = rows_replayed(rows, seq![StoreRequest::Upsert(task)]);
            unique_keys(after) && same_tasks(after, after_progress(q, id, bytes, expected).all())
        }),
{
    let pos = active_position(q, id);
    let task = progressed(q.active[pos], bytes, expected);
    let q2 = after_progress(q, id, bytes, expected);
    lemma_first_index(q.active, key_is::<DownloadTaskView>(id));
    lemma_replay_one(rows, StoreRequest::Upsert(task));
    assert(rows_upserted(rows, task) == placed(rows, task));
    lemma_placed_unique(rows, task);
    assert forall|k: Seq<char>| #[trigger] find(placed(rows, task), k) == find(q2.all(), k) by {
        assert(find(rows, k) == find(q.all(), k));
        lemma_find_placed(rows, task, k);
        lemma_find_update(q.active, pos, task, k);
        lemma_find_in_queue(q, k);
        lemma_find_in_queue(q2, k);
    }
}

/// Round trip through the store: accept a download, let the store do what
/// the manager asks, restart, and the rebuilt queue holds under every key
/// the task that the queue held before the restart, unfinished downloads
/// filed as failed.
pub proof fn lemma_round_trip(
    q: QueueView<DownloadTaskView>,
    rows: Seq<DownloadTaskView>,
    task: DownloadTaskView,
    now: i64,
    k: Seq<char>,
)
    requires
        well_formed(q),
        unique_keys(rows),
        same_tasks(rows, q.all()),
        task.status == DownloadStatus::InProgress,
        task.completed_at is None,
        !is_active(q, task.item.id),
    ensures
        find(restored(rows_replayed(rows, seq![StoreRequest::Upsert(task)]), now).all(), k)
            == found_then(find(after_enqueue(q, task).all(), k), settled(now)),
{
    lemma_enqueue_keeps_mirror(q, rows, task);
    lemma_restart_keeps_tasks(rows_upserted(rows, task), now, k);
    assert(find(rows_upserted(rows, task), k) == find(after_enqueue(q, task).all(), k));
}

} // verus!
