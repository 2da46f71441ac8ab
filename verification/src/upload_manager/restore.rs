//! Rebuilding the upload queue from stored rows after a restart.

use vstd::prelude::*;

use crate::models::{QueueView, UploadQueueState, UploadStatus, UploadTask, UploadTaskView};
use crate::queue_model::{
    first_occurrences, lemma_first_occurrences_elements, lemma_count_map, lemma_count_three_parts,
    lemma_filter_elements, lemma_filter_push_step, lemma_first_occurrences, three_way, TaskRecord,
};
use crate::sorting::{
    ascending, lemma_sorted_ascending, lemma_sorted_count, lemma_sorted_elements, rank_of, rank_value, sort_by_rank, sorted_by_rank,
    Ranked, SortKey,
};
use crate::text::owned;
use crate::upload_manager::queue::{sizes_match, well_formed, within_size};
use crate::upload_manager::state::position_of;

verus! {

/// The error text recorded on an upload that a restart found unfinished and
/// could not resume.
pub open spec fn interrupted_message() -> Seq<char> {
    "application interrupted, please re-enqueue"@
}

/// An unfinished upload can be resumed when it has a session to resume and
/// its total size is known.
pub open spec fn resumable(t: UploadTaskView) -> bool {
    t.session_url is Some && t.session_url->0.len() > 0 && t.size is Some
}

/// A row that a restart has to file as failed: unfinished and not
/// resumable.
pub open spec fn stranded() -> spec_fn(UploadTaskView) -> bool {
    |t: UploadTaskView| t.status == UploadStatus::InProgress && !resumable(t)
}

/// `t` as it is filed when a restart finds it stranded.
pub open spec fn interrupted(t: UploadTaskView, now: i64) -> UploadTaskView {
    UploadTaskView {
        status: UploadStatus::Failed,
        completed_at: Some(now),
        error_message: Some(interrupted_message()),
        ..t
    }
}

/// What a restart at time `now` makes of a stored row.
pub open spec fn settled(now: i64) -> spec_fn(UploadTaskView) -> UploadTaskView {
    |t: UploadTaskView| if stranded()(t) { interrupted(t, now) } else { t }
}

/// The rows that are still running.
pub open spec fn running() -> spec_fn(UploadTaskView) -> bool {
    |t: UploadTaskView| t.status == UploadStatus::InProgress
}

/// The rows that completed.
pub open spec fn finished() -> spec_fn(UploadTaskView) -> bool {
    |t: UploadTaskView| t.status == UploadStatus::Completed
}

/// The rows that failed or were cancelled.
pub open spec fn unsuccessful() -> spec_fn(UploadTaskView) -> bool {
    |t: UploadTaskView| t.status == UploadStatus::Failed || t.status == UploadStatus::Cancelled
}

impl Ranked for UploadTask {
    open spec fn rank(how: SortKey) -> spec_fn(UploadTaskView) -> int {
        |t: UploadTaskView| rank_value(how, t.started_at, t.completed_at)
    }

    fn rank_under(&self, how: SortKey) -> (r: i128) {
        rank_of(how, self.started_at, self.completed_at)
    }
}

/// The stored rows as the restart sees them at time `now`: one row per id,
/// the first, with stranded rows filed as failed.
pub open spec fn rows_settled(rows: Seq<UploadTaskView>, now: i64) -> Seq<UploadTaskView> {
    first_occurrences(rows).map_values(settled(now))
}

/// The queue that a restart at time `now` builds from the stored rows:
/// running tasks oldest first, the others most recently finished first.
pub open spec fn restored(rows: Seq<UploadTaskView>, now: i64) -> QueueView<UploadTaskView> {
    let all = rows_settled(rows, now);
    QueueView {
        active: sorted_by_rank(all.filter(running()), UploadTask::rank(SortKey::Started)),
        completed: sorted_by_rank(all.filter(finished()), UploadTask::rank(SortKey::Finished)),
        failed: sorted_by_rank(all.filter(unsuccessful()), UploadTask::rank(SortKey::Finished)),
    }
}

/// The rows that the restart rewrote and that have to be stored again, in
/// the order of the stored rows.
pub open spec fn rewritten(rows: Seq<UploadTaskView>, now: i64) -> Seq<UploadTaskView> {
    first_occurrences(rows).filter(stranded()).map_values(settled(now))
}

/// The queue that a restart builds satisfies the queue invariant, whatever
/// the stored rows.
pub proof fn lemma_restored_well_formed(rows: Seq<UploadTaskView>, now: i64)
    ensures
        well_formed(restored(rows, now)),
{
    let q = restored(rows, now);
    let kept = first_occurrences(rows);
    let all = rows_settled(rows, now);
    let by_start = UploadTask::rank(SortKey::Started);
    let by_end = UploadTask::rank(SortKey::Finished);
    assert(three_way(running(), finished(), unsuccessful()));
    assert forall|k: Seq<char>| #[trigger] q.occurrences(k) <= 1 by {
        lemma_first_occurrences(rows, k);
        lemma_count_map(kept, settled(now), k);
        lemma_count_three_parts(all, running(), finished(), unsuccessful(), k);
        lemma_sorted_count(all.filter(running()), by_start, k);
        lemma_sorted_count(all.filter(finished()), by_end, k);
        lemma_sorted_count(all.filter(unsuccessful()), by_end, k);
    }
    lemma_sorted_elements(all.filter(running()), by_start);
    lemma_sorted_elements(all.filter(finished()), by_end);
    lemma_sorted_elements(all.filter(unsuccessful()), by_end);
    lemma_filter_elements(all, running());
    lemma_filter_elements(all, finished());
    lemma_filter_elements(all, unsuccessful());
    assert forall|i: int| 0 <= i < q.active.len() implies (#[trigger] q.active[i]).status
        == UploadStatus::InProgress by {
        let part = all.filter(running());
        assert(part.contains(q.active[i]));
        let j = choose|j: int| 0 <= j < part.len() && part[j] == q.active[i];
        assert(running()(part[j]));
    }
    assert forall|i: int| 0 <= i < q.completed.len() implies (#[trigger] q.completed[i]).status
        == UploadStatus::Completed by {
        let part = all.filter(finished());
        assert(part.contains(q.completed[i]));
        let j = choose|j: int| 0 <= j < part.len() && part[j] == q.completed[i];
        assert(finished()(part[j]));
    }
    assert forall|i: int| 0 <= i < q.failed.len() implies {
        ||| (#[trigger] q.failed[i]).status == UploadStatus::Failed
        ||| q.failed[i].status == UploadStatus::Cancelled
    } by {
        let part = all.filter(unsuccessful());
        assert(part.contains(q.failed[i]));
        let j = choose|j: int| 0 <= j < part.len() && part[j] == q.failed[i];
        assert(unsuccessful()(part[j]));
    }
}

/// After a restart every task that is listed as running can be resumed: it
/// has a session address that is not empty and a known total size. No task
/// of the other two lists is in progress.
pub proof fn lemma_restart_leaves_only_resumable(rows: Seq<UploadTaskView>, now: i64)
    ensures
        forall|i: int|
            0 <= i < restored(rows, now).active.len() ==> resumable(
                #[trigger] restored(rows, now).active[i],
            ),
        forall|i: int|
            0 <= i < restored(rows, now).completed.len() ==> (#[trigger] restored(
                rows,
                now,
            ).completed[i]).status != UploadStatus::InProgress,
        forall|i: int|
            0 <= i < restored(rows, now).failed.len() ==> (#[trigger] restored(
                rows,
                now,
            ).failed[i]).status != UploadStatus::InProgress,
{
    let q = restored(rows, now);
    let kept = first_occurrences(rows);
    let all = rows_settled(rows, now);
    lemma_restored_well_formed(rows, now);
    lemma_sorted_elements(all.filter(running()), UploadTask::rank(SortKey::Started));
    lemma_filter_elements(all, running());
    assert forall|i: int| 0 <= i < q.active.len() implies resumable(#[trigger] q.active[i]) by {
        let t = q.active[i];
        let part = all.filter(running());
        assert(part.contains(t));
        let j = choose|j: int| 0 <= j < part.len() && part[j] == t;
        assert(all.contains(part[j]));
        let m = choose|m: int| 0 <= m < all.len() && all[m] == t;
        assert(all[m] == settled(now)(kept[m]));
        assert(t.status == UploadStatus::InProgress);
    }
}

/// The rebuilt queue is in order: the running tasks by start, oldest first;
/// the others by completion, most recent first and tasks without
/// completion time last.
pub proof fn lemma_restored_ordered(rows: Seq<UploadTaskView>, now: i64)
    ensures
        ascending(restored(rows, now).active, UploadTask::rank(SortKey::Started)),
        ascending(restored(rows, now).completed, UploadTask::rank(SortKey::Finished)),
        ascending(restored(rows, now).failed, UploadTask::rank(SortKey::Finished)),
{
    let all = rows_settled(rows, now);
    lemma_sorted_ascending(all.filter(running()), UploadTask::rank(SortKey::Started));
    lemma_sorted_ascending(all.filter(finished()), UploadTask::rank(SortKey::Finished));
    lemma_sorted_ascending(all.filter(unsuccessful()), UploadTask::rank(SortKey::Finished));
}

/// A restart keeps the sizes respected: if no stored row has transferred
/// more than its size, no task of the rebuilt queue has.
pub proof fn lemma_restored_sizes(rows: Seq<UploadTaskView>, now: i64)
    requires
        forall|i: int| 0 <= i < rows.len() ==> within_size(#[trigger] rows[i]),
    ensures
        sizes_match(restored(rows, now)),
{
    let q = restored(rows, now);
    let kept = first_occurrences(rows);
    let all = rows_settled(rows, now);
    lemma_first_occurrences_elements(rows);
    assert forall|x: UploadTaskView| all.contains(x) implies within_size(x) by {
        let m = choose|m: int| 0 <= m < all.len() && all[m] == x;
        assert(all[m] == settled(now)(kept[m]));
        assert(rows.contains(kept[m]));
        let j = choose|j: int| 0 <= j < rows.len() && rows[j] == kept[m];
        assert(within_size(rows[j]));
    }
    lemma_filter_elements(all, running());
    lemma_filter_elements(all, finished());
    lemma_filter_elements(all, unsuccessful());
    lemma_sorted_elements(all.filter(running()), UploadTask::rank(SortKey::Started));
    lemma_sorted_elements(all.filter(finished()), UploadTask::rank(SortKey::Finished));
    lemma_sorted_elements(all.filter(unsuccessful()), UploadTask::rank(SortKey::Finished));
    assert forall|i: int| 0 <= i < q.active.len() implies within_size(#[trigger] q.active[i]) by {
        let part = all.filter(running());
        assert(part.contains(q.active[i]));
        let j = choose|j: int| 0 <= j < part.len() && part[j] == q.active[i];
        assert(all.contains(part[j]));
    }
    assert forall|i: int| 0 <= i < q.completed.len() implies within_size(
        #[trigger] q.completed[i],
    ) by {
        let part = all.filter(finished());
        assert(part.contains(q.completed[i]));
        let j = choose|j: int| 0 <= j < part.len() && part[j] == q.completed[i];
        assert(all.contains(part[j]));
    }
    assert forall|i: int| 0 <= i < q.failed.len() implies within_size(#[trigger] q.failed[i]) by {
        let part = all.filter(unsuccessful());
        assert(part.contains(q.failed[i]));
        let j = choose|j: int| 0 <= j < part.len() && part[j] == q.failed[i];
        assert(all.contains(part[j]));
    }
}

/// Whether an unfinished upload can be resumed.
pub fn is_resumable(task: &UploadTask) -> (r: bool)
    ensures
        r == resumable(task@),
{
    match &task.session_url {
        Some(url) => !url.as_str().is_empty() && task.size.is_some(),
        None => false,
    }
}

/// Keeps the first row of every id.
fn first_rows(rows: &Vec<UploadTask>) -> (kept: Vec<UploadTask>)
    ensures
        kept.deep_view() == first_occurrences(rows.deep_view()),
{
    let mut kept: Vec<UploadTask> = Vec::new();
    let mut i: usize = 0;
    proof {
        assert(rows.deep_view().take(0) =~= Seq::<UploadTaskView>::empty());
        assert(kept.deep_view() =~= Seq::<UploadTaskView>::empty());
    }
    while i < rows.len()
        invariant
            i <= rows.len(),
            kept.deep_view() == first_occurrences(rows.deep_view().take(i as int)),
        decreases rows.len() - i,
    {
        let ghost all = rows.deep_view();
        let ghost before = kept.deep_view();
        proof {
            assert(all.take(i + 1).drop_last() =~= all.take(i as int));
            assert(all.take(i + 1).last() == all[i as int]);
        }
        if position_of(&kept, rows[i].task_id.as_str()).is_none() {
            kept.push(rows[i].clone());
            proof {
                assert(kept.deep_view() =~= before.push(all[i as int]));
            }
        }
        i += 1;
    }
    proof {
        assert(rows.deep_view().take(i as int) =~= rows.deep_view());
    }
    kept
}

/// What a restart hands back: the rebuilt queue and the rows it rewrote.
pub struct Restart {
    /// The rebuilt queue.
    pub state: UploadQueueState,
    /// The stranded tasks, now filed as failed, which the store has yet to
    /// learn about.
    pub rewritten: Vec<UploadTask>,
}

/// Rebuilds the queue from the stored rows at time `now`. Of several rows
/// with one id the first counts. Unfinished rows that cannot be resumed
/// are filed as failed and reported for storing; the resumable ones are
/// the running tasks of the rebuilt queue.
pub fn restore(rows: &Vec<UploadTask>, now: i64) -> (r: Restart)
    ensures
        r.state@ == restored(rows.deep_view(), now),
        r.rewritten.deep_view() == rewritten(rows.deep_view(), now),
        r.state.wf(),
{
    let kept = first_rows(rows);
    let mut active: Vec<UploadTask> = Vec::new();
    let mut completed: Vec<UploadTask> = Vec::new();
    let mut failed: Vec<UploadTask> = Vec::new();
    let mut touched: Vec<UploadTask> = Vec::new();
    let ghost src = kept.deep_view();
    let ghost all = src.map_values(settled(now));
    let mut i: usize = 0;
    proof {
        reveal_with_fuel(Seq::filter, 1);
        assert(all.take(0) =~= Seq::<UploadTaskView>::empty());
        assert(src.take(0) =~= Seq::<UploadTaskView>::empty());
        assert(src.take(0).filter(stranded()).map_values(settled(now)) =~= Seq::<
            UploadTaskView,
        >::empty());
    }
    while i < kept.len()
        invariant
            i <= kept.len(),
            src == kept.deep_view(),
            all == src.map_values(settled(now)),
            active.deep_view() == all.take(i as int).filter(running()),
            completed.deep_view() == all.take(i as int).filter(finished()),
            failed.deep_view() == all.take(i as int).filter(unsuccessful()),
            touched.deep_view() == src.take(i as int).filter(stranded()).map_values(settled(now)),
        decreases kept.len() - i,
    {
        let ghost a0 = active.deep_view();
        let ghost c0 = completed.deep_view();
        let ghost f0 = failed.deep_view();
        let ghost t0 = touched.deep_view();
        let mut task = kept[i].clone();
        let was_stranded = match task.status {
            UploadStatus::InProgress => !is_resumable(&task),
            _ => false,
        };
        if was_stranded {
            task.status = UploadStatus::Failed;
            task.completed_at = Some(now);
            task.error_message = Some(owned("application interrupted, please re-enqueue"));
            touched.push(task.clone());
        }
        proof {
            let x = all[i as int];
            assert(task@ == x);
            assert(all.take(i + 1) =~= all.take(i as int).push(x));
            assert(src.take(i + 1) =~= src.take(i as int).push(src[i as int]));
            lemma_filter_push_step(all.take(i as int), x, running());
            lemma_filter_push_step(all.take(i as int), x, finished());
            lemma_filter_push_step(all.take(i as int), x, unsuccessful());
            lemma_filter_push_step(src.take(i as int), src[i as int], stranded());
            if was_stranded {
                assert(touched.deep_view() =~= t0.push(x));
                assert(src.take(i as int).filter(stranded()).push(src[i as int]).map_values(
                    settled(now),
                ) =~= t0.push(x));
            }
        }
        match task.status {
            UploadStatus::InProgress => {
                active.push(task);
                proof {
                    assert(active.deep_view() =~= a0.push(all[i as int]));
                }
            },
            UploadStatus::Completed => {
                completed.push(task);
                proof {
                    assert(completed.deep_view() =~= c0.push(all[i as int]));
                }
            },
            UploadStatus::Failed | UploadStatus::Cancelled => {
                failed.push(task);
                proof {
                    assert(failed.deep_view() =~= f0.push(all[i as int]));
                }
            },
        }
        i += 1;
    }
    proof {
        assert(all.take(i as int) =~= all);
        assert(src.take(i as int) =~= src);
        lemma_restored_well_formed(rows.deep_view(), now);
    }
    sort_by_rank(&mut active, SortKey::Started);
    sort_by_rank(&mut completed, SortKey::Finished);
    sort_by_rank(&mut failed, SortKey::Finished);
    Restart { state: UploadQueueState { active, completed, failed }, rewritten: touched }
}

} // verus!
