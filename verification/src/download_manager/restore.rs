//! Rebuilding the download queue from stored rows after a restart.

use vstd::prelude::*;

use crate::download_manager::queue::{sizes_match, well_formed, within_size};
use crate::download_manager::state::position_of;
use crate::models::{
    DownloadQueueState, DownloadStatus, DownloadTask, DownloadTaskView, QueueView,
};
use crate::queue_model::{
    first_occurrences, lemma_count_map, lemma_count_three_parts, lemma_filter_elements,
    lemma_first_occurrences_elements,
    lemma_filter_push_step, lemma_first_occurrences, three_way, TaskRecord,
};
use crate::sorting::{
    ascending, lemma_sorted_ascending, lemma_sorted_count, lemma_sorted_elements, rank_of, rank_value, sort_by_rank, sorted_by_rank,
    Ranked, SortKey,
};
use crate::text::owned;

verus! {

/// The error text recorded on a download that a restart found unfinished.
pub open spec fn interrupted_message() -> Seq<char> {
    "application interrupted, please re-enqueue"@
}

/// A row that a restart has to file as failed: any unfinished one, since a
/// download cannot be resumed.
pub open spec fn stranded() -> spec_fn(DownloadTaskView) -> bool {
    |t: DownloadTaskView| t.status == DownloadStatus::InProgress
}

/// `t` as it is filed when a restart finds it unfinished.
pub open spec fn interrupted(t: DownloadTaskView, now: i64) -> DownloadTaskView {
    DownloadTaskView {
        status: DownloadStatus::Failed,
        completed_at: Some(now),
        error_message: Some(interrupted_message()),
        ..t
    }
}

/// What a restart at time `now` makes of a stored row.
pub open spec fn settled(now: i64) -> spec_fn(DownloadTaskView) -> DownloadTaskView {
    |t: DownloadTaskView| if stranded()(t) { interrupted(t, now) } else { t }
}

/// The rows that are still running.
pub open spec fn running() -> spec_fn(DownloadTaskView) -> bool {
    |t: DownloadTaskView| t.status == DownloadStatus::InProgress
}

/// The rows that completed.
pub open spec fn finished() -> spec_fn(DownloadTaskView) -> bool {
    |t: DownloadTaskView| t.status == DownloadStatus::Completed
}

/// The rows that failed.
pub open spec fn unsuccessful() -> spec_fn(DownloadTaskView) -> bool {
    |t: DownloadTaskView| t.status == DownloadStatus::Failed
}

impl Ranked for DownloadTask {
    open spec fn rank(how: SortKey) -> spec_fn(DownloadTaskView) -> int {
        |t: DownloadTaskView| rank_value(how, t.started_at, t.completed_at)
    }

    fn rank_under(&self, how: SortKey) -> (r: i128) {
        rank_of(how, self.started_at, self.completed_at)
    }
}

/// The stored rows as the restart sees them at time `now`: one row per
/// item, the first, with unfinished rows filed as failed.
pub open spec fn rows_settled(rows: Seq<DownloadTaskView>, now: i64) -> Seq<DownloadTaskView> {
    first_occurrences(rows).map_values(settled(now))
}

/// The queue that a restart at time `now` builds from the stored rows:
/// running tasks oldest first, the others most recently finished first.
pub open spec fn restored(rows: Seq<DownloadTaskView>, now: i64) -> QueueView<DownloadTaskView> {
    let all = rows_settled(rows, now);
    QueueView {
        active: sorted_by_rank(all.filter(running()), DownloadTask::rank(SortKey::Started)),
        completed: sorted_by_rank(all.filter(finished()), DownloadTask::rank(SortKey::Finished)),
        failed: sorted_by_rank(all.filter(unsuccessful()), DownloadTask::rank(SortKey::Finished)),
    }
}

/// The rows that the restart rewrote and that have to be stored again, in
/// the order of the stored rows.
pub open spec fn rewritten(rows: Seq<DownloadTaskView>, now: i64) -> Seq<DownloadTaskView> {
    first_occurrences(rows).filter(stranded()).map_values(settled(now))
}

/// The queue that a restart builds satisfies the queue invariant, whatever
/// the stored rows.
pub proof fn lemma_restored_well_formed(rows: Seq<DownloadTaskView>, now: i64)
    ensures
        well_formed(restored(rows, now)),
{
    let q = restored(rows, now);
    let kept = first_occurrences(rows);
    let all = rows_settled(rows, now);
    let by_start = DownloadTask::rank(SortKey::Started);
    let by_end = DownloadTask::rank(SortKey::Finished);
    assert(three_way(running(), finished(), unsuccessful()));
    assert forall|k: Seq<char>| #[trigger] q.occurrences(k) <= 1 by {
        lemma_first_occurrences(rows, k);
        lemma_count_map(kept, settled(now), k);
        lemma_count_three_parts(all, running(), finished(), unsuccessful(), k);
        lemma_sorted_count(all.filter(running()), by_start, k);
        lemma_sorted_count(all.filter(finished()), by_end, k);
        lemma_sorted_count(all.filter(unsuccessful()), by_end, k);
    }
    lemma_sorted_elements(all.filter(running()), by_start);
    lemma_sorted_elements(all.filter(finished()), by_end);
    lemma_sorted_elements(all.filter(unsuccessful()), by_end);
    lemma_filter_elements(all, running());
    lemma_filter_elements(all, finished());
    lemma_filter_elements(all, unsuccessful());
    assert forall|i: int| 0 <= i < q.active.len() implies (#[trigger] q.active[i]).status
        == DownloadStatus::InProgress by {
        let part = all.filter(running());
        assert(part.contains(q.active[i]));
        let j = choose|j: int| 0 <= j < part.len() && part[j] == q.active[i];
        assert(running()(part[j]));
    }
    assert forall|i: int| 0 <= i < q.completed.len() implies (#[trigger] q.completed[i]).status
        == DownloadStatus::Completed by {
        let part = all.filter(finished());
        assert(part.contains(q.completed[i]));
        let j = choose|j: int| 0 <= j < part.len() && part[j] == q.completed[i];
        assert(finished()(part[j]));
    }
    assert forall|i: int| 0 <= i < q.failed.len() implies (#[trigger] q.failed[i]).status
        == DownloadStatus::Failed by {
        let part = all.filter(unsuccessful());
        assert(part.contains(q.failed[i]));
        let j = choose|j: int| 0 <= j < part.len() && part[j] == q.failed[i];
        assert(unsuccessful()(part[j]));
    }
}

/// After a restart no download is listed as running, and no task of the
/// other two lists is in progress.
pub proof fn lemma_restart_leaves_nothing_running(rows: Seq<DownloadTaskView>, now: i64)
    ensures
        restored(rows, now).active.len() == 0,
        forall|i: int|
            0 <= i < restored(rows, now).completed.len() ==> (#[trigger] restored(
                rows,
                now,
            ).completed[i]).status != DownloadStatus::InProgress,
        forall|i: int|
            0 <= i < restored(rows, now).failed.len() ==> (#[trigger] restored(
                rows,
                now,
            ).failed[i]).status != DownloadStatus::InProgress,
{
    let q = restored(rows, now);
    let kept = first_occurrences(rows);
    let all = rows_settled(rows, now);
    lemma_restored_well_formed(rows, now);
    lemma_sorted_elements(all.filter(running()), DownloadTask::rank(SortKey::Started));
    lemma_filter_elements(all, running());
    if q.active.len() > 0 {
        let t = q.active[0];
        let part = all.filter(running());
        assert(part.contains(t));
        let j = choose|j: int| 0 <= j < part.len() && part[j] == t;
        assert(all.contains(part[j]));
        let m = choose|m: int| 0 <= m < all.len() && all[m] == t;
        assert(all[m] == settled(now)(kept[m]));
        assert(t.status == DownloadStatus::InProgress);
    }
}

/// The rebuilt queue is in order: the running tasks by start, oldest first;
/// the others by completion, most recent first and tasks without
/// completion time last.
pub proof fn lemma_restored_ordered(rows: Seq<DownloadTaskView>, now: i64)
    ensures
        ascending(restored(rows, now).active, DownloadTask::rank(SortKey::Started)),
        ascending(restored(rows, now).completed, DownloadTask::rank(SortKey::Finished)),
        ascending(restored(rows, now).failed, DownloadTask::rank(SortKey::Finished)),
{
    let all = rows_settled(rows, now);
    lemma_sorted_ascending(all.filter(running()), DownloadTask::rank(SortKey::Started));
    lemma_sorted_ascending(all.filter(finished()), DownloadTask::rank(SortKey::Finished));
    lemma_sorted_ascending(all.filter(unsuccessful()), DownloadTask::rank(SortKey::Finished));
}

/// A restart keeps the sizes respected: if no stored row has transferred
/// more than its size, no task of the rebuilt queue has.
pub proof fn lemma_restored_sizes(rows: Seq<DownloadTaskView>, now: i64)
    requires
        forall|i: int| 0 <= i < rows.len() ==> within_size(#[trigger] rows[i]),
    ensures
        sizes_match(restored(rows, now)),
{
    let q = restored(rows, now);
    let kept = first_occurrences(rows);
    let all = rows_settled(rows, now);
    lemma_first_occurrences_elements(rows);
    assert forall|x: DownloadTaskView| all.contains(x) implies within_size(x) by {
        let m = choose|m: int| 0 <= m < all.len() && all[m] == x;
        assert(all[m] == settled(now)(kept[m]));
        assert(rows.contains(kept[m]));
        let j = choose|j: int| 0 <= j < rows.len() && rows[j] == kept[m];
        assert(within_size(rows[j]));
    }
    lemma_filter_elements(all, running());
    lemma_filter_elements(all, finished());
    lemma_filter_elements(all, unsuccessful());
    lemma_sorted_elements(all.filter(running()), DownloadTask::rank(SortKey::Started));
    lemma_sorted_elements(all.filter(finished()), DownloadTask::rank(SortKey::Finished));
    lemma_sorted_elements(all.filter(unsuccessful()), DownloadTask::rank(SortKey::Finished));
    assert forall|i: int| 0 <= i < q.active.len() implies within_size(#[trigger] q.active[i]) by {
        let part = all.filter(running());
        assert(part.contains(q.active[i]));
        let j = choose|j: int| 0 <= j < part.len() && part[j] == q.active[i];
        assert(all.contains(part[j]));
    }
    assert forall|i: int| 0 <= i < q.completed.len() implies within_size(
        #[trigger] q.completed[i],
    ) by {
        let part = all.filter(finished());
        assert(part.contains(q.completed[i]));
        let j = choose|j: int| 0 <= j < part.len() && part[j] == q.completed[i];
        assert(all.contains(part[j]));
    }
    assert forall|i: int| 0 <= i < q.failed.len() implies within_size(#[trigger] q.failed[i]) by {
        let part = all.filter(unsuccessful());
        assert(part.contains(q.failed[i]));
        let j = choose|j: int| 0 <= j < part.len() && part[j] == q.failed[i];
        assert(all.contains(part[j]));
    }
}

/// Keeps the first row of every item.
fn first_rows(rows: &Vec<DownloadTask>) -> (kept: Vec<DownloadTask>)
    ensures
        kept.deep_view() == first_occurrences(rows.deep_view()),
{
    let mut kept: Vec<DownloadTask> = Vec::new();
    let mut i: usize = 0;
    proof {
        assert(rows.deep_view().take(0) =~= Seq::<DownloadTaskView>::empty());
        assert(kept.deep_view() =~= Seq::<DownloadTaskView>::empty());
    }
    while i < rows.len()
        invariant
            i <= rows.len(),
            kept.deep_view() == first_occurrences(rows.deep_view().take(i as int)),
        decreases rows.len() - i,
    {
        let ghost all = rows.deep_view();
        let ghost before = kept.deep_view();
        proof {
            assert(all.take(i + 1).drop_last() =~= all.take(i as int));
            assert(all.take(i + 1).last() == all[i as int]);
        }
        if position_of(&kept, rows[i].item.id.as_str()).is_none() {
            kept.push(rows[i].clone());
            proof {
                assert(kept.deep_view() =~= before.push(all[i as int]));
            }
        }
        i += 1;
    }
    proof {
        assert(rows.deep_view().take(i as int) =~= rows.deep_view());
    }
    kept
}

/// What a restart hands back: the rebuilt queue and the rows it rewrote.
pub struct Restart {
    /// The rebuilt queue.
    pub state: DownloadQueueState,
    /// The unfinished downloads, now filed as failed, which the store has
    /// yet to learn about.
    pub rewritten: Vec<DownloadTask>,
}

/// Rebuilds the queue from the stored rows at time `now`. Of several rows
/// for one item the first counts. Unfinished rows are filed as failed and
/// reported for storing.
pub fn restore(rows: &Vec<DownloadTask>, now: i64) -> (r: Restart)
    ensures
        r.state@ == restored(rows.deep_view(), now),
        r.rewritten.deep_view() == rewritten(rows.deep_view(), now),
        r.state.wf(),
{
    let kept = first_rows(rows);
    let mut active: Vec<DownloadTask> = Vec::new();
    let mut completed: Vec<DownloadTask> = Vec::new();
    let mut failed: Vec<DownloadTask> = Vec::new();
    let mut touched: Vec<DownloadTask> = Vec::new();
    let ghost src = kept.deep_view();
    let ghost all = src.map_values(settled(now));
    let mut i: usize = 0;
    proof {
        reveal_with_fuel(Seq::filter, 1);
        assert(all.take(0) =~= Seq::<DownloadTaskView>::empty());
        assert(src.take(0) =~= Seq::<DownloadTaskView>::empty());
        assert(src.take(0).filter(stranded()).map_values(settled(now)) =~= Seq::<
            DownloadTaskView,
        >::empty());
    }
    while i < kept.len()
        invariant
            i <= kept.len(),
            src == kept.deep_view(),
            all == src.map_values(settled(now)),
            active.deep_view() == all.take(i as int).filter(running()),
            completed.deep_view() == all.take(i as int).filter(finished()),
            failed.deep_view() == all.take(i as int).filter(unsuccessful()),
            touched.deep_view() == src.take(i as int).filter(stranded()).map_values(settled(now)),
        decreases kept.len() - i,
    {
        let ghost a0 = active.deep_view();
        let ghost c0 = completed.deep_view();
        let ghost f0 = failed.deep_view();
        let ghost t0 = touched.deep_view();
        let mut task = kept[i].clone();
        let was_stranded = match task.status {
            DownloadStatus::InProgress => true,
            _ => false,
        };
        if was_stranded {
            task.status = DownloadStatus::Failed;
            task.completed_at = Some(now);
            task.error_message = Some(owned("application interrupted, please re-enqueue"));
            touched.push(task.clone());
        }
        proof {
            let x = all[i as int];
            assert(task@ == x);
            assert(all.take(i + 1) =~= all.take(i as int).push(x));
            assert(src.take(i + 1) =~= src.take(i as int).push(src[i as int]));
            lemma_filter_push_step(all.take(i as int), x, running());
            lemma_filter_push_step(all.take(i as int), x, finished());
            lemma_filter_push_step(all.take(i as int), x, unsuccessful());
            lemma_filter_push_step(src.take(i as int), src[i as int], stranded());
            if was_stranded {
                assert(touched.deep_view() =~= t0.push(x));
                assert(src.take(i as int).filter(stranded()).push(src[i as int]).map_values(
                    settled(now),
                ) =~= t0.push(x));
            }
        }
        match task.status {
            DownloadStatus::InProgress => {
                active.push(task);
                proof {
                    assert(active.deep_view() =~= a0.push(all[i as int]));
                }
            },
            DownloadStatus::Completed => {
                completed.push(task);
                proof {
                    assert(completed.deep_view() =~= c0.push(all[i as int]));
                }
            },
            DownloadStatus::Failed => {
                failed.push(task);
                proof {
                    assert(failed.deep_view() =~= f0.push(all[i as int]));
                }
            },
        }
        i += 1;
    }
    proof {
        assert(all.take(i as int) =~= all);
        assert(src.take(i as int) =~= src);
        lemma_restored_well_formed(rows.deep_view(), now);
    }
    sort_by_rank(&mut active, SortKey::Started);
    sort_by_rank(&mut completed, SortKey::Finished);
    sort_by_rank(&mut failed, SortKey::Finished);
    Restart { state: DownloadQueueState { active, completed, failed }, rewritten: touched }
}

} // verus!
