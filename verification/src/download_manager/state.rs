//! The executable download queue: the operations of the model carried out
//! on the vectors of a [`DownloadQueueState`].

use vstd::prelude::*;

use crate::errors::QueueError;
use crate::download_manager::queue::{
    after_clear_failed, after_clear_history, after_enqueue, after_failure, after_progress,
    after_remove, after_success, enqueue_rejection, failed_with, fresh_download, is_active,
    lemma_clear_well_formed, lemma_enqueue_well_formed, lemma_failure_well_formed,
    lemma_progress_well_formed, lemma_remove_well_formed, lemma_success_well_formed, progressed, takes_tick,
    stamps_match, succeeded, well_formed,
};
use crate::models::{
    DownloadQueueState, DownloadStatus, DownloadTask, DownloadTaskView, DriveDownloadResult,
    DriveItemSummary,
};
use crate::queue_model::{
    first_index, key_is, key_is_not, keys_of, lemma_filter_skip_step, lemma_first_index,
    lemma_first_index_is, without_key,
};
use crate::text::{blank, str_eq};

verus! {

/// Position of the first task of item `id`.
pub(crate) fn position_of(tasks: &Vec<DownloadTask>, id: &str) -> (r: Option<usize>)
    ensures
        match r {
            Some(i) => i < tasks.len() && i == first_index(
                tasks.deep_view(),
                key_is::<DownloadTaskView>(id@),
            ),
            None => first_index(tasks.deep_view(), key_is::<DownloadTaskView>(id@))
                == tasks.len(),
        },
{
    let ghost p = key_is::<DownloadTaskView>(id@);
    let mut i: usize = 0;
    while i < tasks.len()
        invariant
            i <= tasks.len(),
            p == key_is::<DownloadTaskView>(id@),
            forall|j: int| 0 <= j < i ==> !p(#[trigger] tasks.deep_view()[j]),
        decreases tasks.len() - i,
    {
        if str_eq(tasks[i].item.id.as_str(), id) {
            proof {
                assert(p(tasks.deep_view()[i as int]));
                lemma_first_index_is(tasks.deep_view(), p, i as int);
            }
            return Some(i);
        }
        i += 1;
    }
    proof {
        lemma_first_index_is(tasks.deep_view(), p, i as int);
    }
    None
}

/// Drops every task of item `id`, keeping the others in order.
pub(crate) fn drop_id(tasks: &mut Vec<DownloadTask>, id: &str)
    ensures
        final(tasks).deep_view() == without_key(old(tasks).deep_view(), id@),
{
    let ghost p = key_is_not::<DownloadTaskView>(id@);
    let ghost orig = tasks.deep_view();
    let mut i: usize = 0;
    proof {
        assert(orig.skip(0) =~= orig);
        assert(orig.take(0) + orig.filter(p) =~= orig.filter(p));
    }
    while i < tasks.len()
        invariant
            i <= tasks.len(),
            p == key_is_not::<DownloadTaskView>(id@),
            orig.filter(p) == tasks.deep_view().take(i as int) + tasks.deep_view().skip(
                i as int,
            ).filter(p),
        decreases tasks.len() - i,
    {
        let ghost before = tasks.deep_view();
        proof {
            lemma_filter_skip_step(before, p, i as int);
        }
        if str_eq(tasks[i].item.id.as_str(), id) {
            tasks.remove(i);
            proof {
                assert(tasks.deep_view().take(i as int) =~= before.take(i as int));
                assert(tasks.deep_view().skip(i as int) =~= before.skip(i + 1));
            }
        } else {
            proof {
                assert(before.take(i + 1) + before.skip(i + 1).filter(p) =~= before.take(i as int)
                    + (seq![before[i as int]] + before.skip(i + 1).filter(p)));
            }
            i += 1;
        }
    }
    proof {
        let now = tasks.deep_view();
        assert(now.skip(i as int) =~= Seq::<DownloadTaskView>::empty());
        reveal_with_fuel(Seq::filter, 1);
        assert(now.take(i as int) + now.skip(i as int).filter(p) =~= now);
    }
}

impl DownloadQueueState {
    /// Whether the queue satisfies its invariant.
    pub open spec fn wf(&self) -> bool {
        well_formed(self@)
    }

    /// Accepts the download of `item` into `target_dir`, or says why not.
    /// On acceptance the finished and failed downloads of the same item
    /// leave the queue and the new record is returned.
    pub fn enqueue(&mut self, item: DriveItemSummary, target_dir: &str, now: i64) -> (r: Result<
        DownloadTask,
        QueueError,
    >)
        ensures
            match enqueue_rejection(old(self)@, item@.id, target_dir@) {
                Some(e) => r == Err::<DownloadTask, QueueError>(e) && *final(self) == *old(self),
                None => r is Ok && r->Ok_0@ == fresh_download(item@, now) && final(self)@
                    == after_enqueue(old(self)@, r->Ok_0@),
            },
            old(self).wf() ==> final(self).wf(),
            stamps_match(old(self)@) ==> stamps_match(final(self)@),
    {
        if blank(item.id.as_str()) {
            return Err(QueueError::MissingIdentity);
        }
        if blank(target_dir) {
            return Err(QueueError::MissingPath);
        }
        if position_of(&self.active, item.id.as_str()).is_some() {
            return Err(QueueError::DuplicateActive);
        }
        drop_id(&mut self.completed, item.id.as_str());
        drop_id(&mut self.failed, item.id.as_str());
        let size = item.size;
        let task = DownloadTask {
            item,
            status: DownloadStatus::InProgress,
            started_at: now,
            completed_at: None,
            saved_path: None,
            size_label: size,
            bytes_downloaded: Some(0),
            error_message: None,
        };
        let copy = task.clone();
        self.active.push(task);
        proof {
            assert(self.active.deep_view() =~= old(self).active.deep_view().push(copy@));
            lemma_first_index(old(self)@.active, key_is::<DownloadTaskView>(copy@.item.id));
            lemma_enqueue_well_formed(old(self)@, copy@);
        }
        Ok(copy)
    }

    /// Files the running download of item `item_id` as completed and
    /// returns its final record, or `None` when no such download is
    /// running.
    pub fn mark_success(&mut self, item_id: &str, result: &DriveDownloadResult, now: i64) -> (r:
        Option<DownloadTask>)
        ensures
            final(self)@ == after_success(
                old(self)@,
                item_id@,
                result.saved_path@,
                result.bytes_downloaded,
                result.expected_size,
                now,
            ),
            r is Some == is_active(old(self)@, item_id@),
            r is Some ==> r->0@ == final(self)@.completed[0],
            old(self).wf() ==> final(self).wf(),
            stamps_match(old(self)@) ==> stamps_match(final(self)@),
    {
        proof {
            lemma_success_well_formed(
                old(self)@,
                item_id@,
                result.saved_path@,
                result.bytes_downloaded,
                result.expected_size,
                now,
            );
        }
        match position_of(&self.active, item_id) {
            Some(pos) => {
                let mut task = self.active.remove(pos);
                task.status = DownloadStatus::Completed;
                task.completed_at = Some(now);
                task.saved_path = Some(result.saved_path.clone());
                if task.size_label.is_none() {
                    task.size_label = result.expected_size;
                }
                task.bytes_downloaded = Some(result.bytes_downloaded);
                task.error_message = None;
                let copy = task.clone();
                self.completed.insert(0, task);
                proof {
                    let q = old(self)@;
                    assert(self.active.deep_view() =~= q.active.remove(pos as int));
                    assert(self.completed.deep_view() =~= q.completed.insert(0, copy@));
                    assert(copy@ == succeeded(
                        q.active[pos as int],
                        result.saved_path@,
                        result.bytes_downloaded,
                        result.expected_size,
                        now,
                    ));
                }
                Some(copy)
            },
            None => None,
        }
    }

    /// Files the running download of item `item_id` as failed with
    /// `message` and returns its final record. When the download is not
    /// running, a stale failure of the same item is dropped and `None` is
    /// returned.
    pub fn mark_failure(&mut self, item_id: &str, message: String, now: i64) -> (r: Option<
        DownloadTask,
    >)
        ensures
            final(self)@ == after_failure(old(self)@, item_id@, message@, now),
            r is Some == is_active(old(self)@, item_id@),
            r is Some ==> r->0@ == final(self)@.failed[0],
            old(self).wf() ==> final(self).wf(),
            stamps_match(old(self)@) ==> stamps_match(final(self)@),
    {
        proof {
            lemma_failure_well_formed(old(self)@, item_id@, message@, now);
        }
        match position_of(&self.active, item_id) {
            Some(pos) => {
                let mut task = self.active.remove(pos);
                task.status = DownloadStatus::Failed;
                task.completed_at = Some(now);
                task.error_message = Some(message);
                let copy = task.clone();
                self.failed.insert(0, task);
                proof {
                    let q = old(self)@;
                    assert(self.active.deep_view() =~= q.active.remove(pos as int));
                    assert(self.failed.deep_view() =~= q.failed.insert(0, copy@));
                    assert(copy@ == failed_with(q.active[pos as int], message@, now));
                }
                Some(copy)
            },
            None => {
                drop_id(&mut self.failed, item_id);
                None
            },
        }
    }

    /// Takes every task of item `item_id` out of the queue, whatever its
    /// state.
    pub fn remove(&mut self, item_id: &str)
        ensures
            final(self)@ == after_remove(old(self)@, item_id@),
            old(self).wf() ==> final(self).wf(),
            stamps_match(old(self)@) ==> stamps_match(final(self)@),
    {
        proof {
            lemma_remove_well_formed(old(self)@, item_id@);
        }
        drop_id(&mut self.active, item_id);
        drop_id(&mut self.completed, item_id);
        drop_id(&mut self.failed, item_id);
    }

    /// Empties the history; running tasks stay.
    pub fn clear_history(&mut self)
        ensures
            final(self)@ == after_clear_history(old(self)@),
            old(self).wf() ==> final(self).wf(),
            stamps_match(old(self)@) ==> stamps_match(final(self)@),
    {
        proof {
            lemma_clear_well_formed(old(self)@);
        }
        self.completed.clear();
        self.failed.clear();
        proof {
            assert(self.completed.deep_view() =~= Seq::<DownloadTaskView>::empty());
            assert(self.failed.deep_view() =~= Seq::<DownloadTaskView>::empty());
        }
    }

    /// Drops the failed tasks and returns their item ids, in the order in
    /// which they were listed.
    pub fn clear_failed(&mut self) -> (ids: Vec<String>)
        ensures
            final(self)@ == after_clear_failed(old(self)@),
            ids.deep_view() == keys_of(old(self)@.failed),
            old(self).wf() ==> final(self).wf(),
            stamps_match(old(self)@) ==> stamps_match(final(self)@),
    {
        proof {
            lemma_clear_well_formed(old(self)@);
        }
        let mut ids: Vec<String> = Vec::new();
        let mut i: usize = 0;
        while i < self.failed.len()
            invariant
                i <= self.failed.len(),
                *self == *old(self),
                ids.deep_view() == keys_of(self.failed.deep_view().take(i as int)),
            decreases self.failed.len() - i,
        {
            let ghost before = ids.deep_view();
            let id = self.failed[i].item.id.clone();
            ids.push(id);
            proof {
                let all = self.failed.deep_view();
                assert(all[i as int].item.id == id@);
                assert(ids.deep_view() =~= before.push(id@));
                assert(all.take(i + 1) =~= all.take(i as int).push(all[i as int]));
                assert(keys_of(all.take(i + 1)) =~= keys_of(all.take(i as int)).push(id@));
            }
            i += 1;
        }
        proof {
            let all = self.failed.deep_view();
            assert(all.take(i as int) =~= all);
        }
        self.failed.clear();
        proof {
            assert(self.failed.deep_view() =~= Seq::<DownloadTaskView>::empty());
        }
        ids
    }

    /// Records a progress tick of the running download `item_id` and returns
    /// the updated record. A tick is dropped, and nothing returned, when no
    /// such download is running, when the byte count lies below the count
    /// recorded last, or when it passes the size.
    pub fn report_progress(&mut self, item_id: &str, bytes_downloaded: u64, expected_size: Option<u64>)
        -> (r: Option<DownloadTask>)
        ensures
            final(self)@ == after_progress(old(self)@, item_id@, bytes_downloaded, expected_size),
            r is Some == takes_tick(old(self)@, item_id@, bytes_downloaded, expected_size),
            r is Some ==> r->0@ == progressed(
                old(self)@.active[first_index(
                    old(self)@.active,
                    key_is::<DownloadTaskView>(item_id@),
                )],
                bytes_downloaded,
                expected_size,
            ),
            old(self).wf() ==> final(self).wf(),
            stamps_match(old(self)@) ==> stamps_match(final(self)@),
    {
        proof {
            lemma_progress_well_formed(old(self)@, item_id@, bytes_downloaded, expected_size);
        }
        match position_of(&self.active, item_id) {
            Some(pos) => {
                let size = if expected_size.is_some() {
                    expected_size
                } else {
                    self.active[pos].size_label
                };
                let behind = match self.active[pos].bytes_downloaded {
                    Some(recorded) => bytes_downloaded < recorded,
                    None => false,
                };
                let beyond = match size {
                    Some(limit) => bytes_downloaded > limit,
                    None => false,
                };
                if behind || beyond {
                    return None;
                }
                let mut task = self.active[pos].clone();
                task.bytes_downloaded = Some(bytes_downloaded);
                task.size_label = size;
                let copy = task.clone();
                self.active.set(pos, task);
                proof {
                    let q = old(self)@;
                    assert(self.active.deep_view() =~= q.active.update(pos as int, copy@));
                }
                Some(copy)
            },
            None => None,
        }
    }
}

} // verus!
