//! The executable upload queue: the operations of the model carried out on
//! the vectors of an [`UploadQueueState`].

use vstd::prelude::*;

use crate::errors::QueueError;
use crate::models::{UploadQueueState, UploadStatus, UploadTask, UploadTaskView};
use crate::queue_model::{
    first_index, key_is, key_is_not, keys_of, lemma_filter_push_step, lemma_filter_skip_step,
    lemma_first_index,
    lemma_first_index_is, without_key,
};
use crate::text::{blank, opt_str_eq, opt_view, owned, str_eq};
use crate::upload_manager::queue::{
    CANCELLED_UPLOAD_MESSAGE,
    after_cancelled, after_clear_failed, after_clear_history, after_enqueue, after_failure,
    after_progress, after_remove, after_session, after_success, cancelled, clear_of,
    conflicts_with, enqueue_rejection, failed_with, fresh_upload, is_active,
    lemma_cancelled_well_formed, lemma_clear_well_formed, lemma_enqueue_well_formed,
    lemma_failure_well_formed, lemma_remove_well_formed, lemma_success_well_formed,
    lemma_update_well_formed, progressed, takes_tick, stamps_match, succeeded, well_formed,
};

verus! {

/// Whether `task` stands in the way of an upload with this id, name and
/// folder.
fn conflicts(task: &UploadTask, id: &str, name: &str, parent: &Option<String>) -> (r: bool)
    ensures
        r == conflicts_with(id@, name@, opt_view(*parent))(task@),
{
    str_eq(task.task_id.as_str(), id) || (str_eq(task.file_name.as_str(), name) && opt_str_eq(
        &task.parent_id,
        parent,
    ))
}

/// Position of the first task filed under `id`.
pub(crate) fn position_of(tasks: &Vec<UploadTask>, id: &str) -> (r: Option<usize>)
    ensures
        match r {
            Some(i) => i < tasks.len() && i == first_index(
                tasks.deep_view(),
                key_is::<UploadTaskView>(id@),
            ),
            None => first_index(tasks.deep_view(), key_is::<UploadTaskView>(id@)) == tasks.len(),
        },
{
    let ghost p = key_is::<UploadTaskView>(id@);
    let mut i: usize = 0;
    while i < tasks.len()
        invariant
            i <= tasks.len(),
            p == key_is::<UploadTaskView>(id@),
            forall|j: int| 0 <= j < i ==> !p(#[trigger] tasks.deep_view()[j]),
        decreases tasks.len() - i,
    {
        if str_eq(tasks[i].task_id.as_str(), id) {
            proof {
                assert(p(tasks.deep_view()[i as int]));
                lemma_first_index_is(tasks.deep_view(), p, i as int);
            }
            return Some(i);
        }
        i += 1;
    }
    proof {
        lemma_first_index_is(tasks.deep_view(), p, i as int);
    }
    None
}

/// Whether some task of `tasks` conflicts with the upload described.
fn has_conflict(tasks: &Vec<UploadTask>, id: &str, name: &str, parent: &Option<String>) -> (r:
    bool)
    ensures
        r == (first_index(tasks.deep_view(), conflicts_with(id@, name@, opt_view(*parent)))
            < tasks.len()),
{
    let ghost p = conflicts_with(id@, name@, opt_view(*parent));
    let mut i: usize = 0;
    while i < tasks.len()
        invariant
            i <= tasks.len(),
            p == conflicts_with(id@, name@, opt_view(*parent)),
            forall|j: int| 0 <= j < i ==> !p(#[trigger] tasks.deep_view()[j]),
        decreases tasks.len() - i,
    {
        if conflicts(&tasks[i], id, name, parent) {
            proof {
                assert(p(tasks.deep_view()[i as int]));
                lemma_first_index_is(tasks.deep_view(), p, i as int);
            }
            return true;
        }
        i += 1;
    }
    proof {
        lemma_first_index_is(tasks.deep_view(), p, i as int);
    }
    false
}

/// Drops every task filed under `id`, keeping the others in order.
pub(crate) fn drop_id(tasks: &mut Vec<UploadTask>, id: &str)
    ensures
        final(tasks).deep_view() == without_key(old(tasks).deep_view(), id@),
{
    let ghost p = key_is_not::<UploadTaskView>(id@);
    let ghost orig = tasks.deep_view();
    let mut i: usize = 0;
    proof {
        assert(orig.skip(0) =~= orig);
        assert(orig.take(0) + orig.filter(p) =~= orig.filter(p));
    }
    while i < tasks.len()
        invariant
            i <= tasks.len(),
            p == key_is_not::<UploadTaskView>(id@),
            orig.filter(p) == tasks.deep_view().take(i as int) + tasks.deep_view().skip(
                i as int,
            ).filter(p),
        decreases tasks.len() - i,
    {
        let ghost before = tasks.deep_view();
        proof {
            lemma_filter_skip_step(before, p, i as int);
        }
        if str_eq(tasks[i].task_id.as_str(), id) {
            tasks.remove(i);
            proof {
                assert(tasks.deep_view().take(i as int) =~= before.take(i as int));
                assert(tasks.deep_view().skip(i as int) =~= before.skip(i + 1));
            }
        } else {
            proof {
                assert(before.take(i + 1) + before.skip(i + 1).filter(p) =~= before.take(i as int)
                    + (seq![before[i as int]] + before.skip(i + 1).filter(p)));
            }
            i += 1;
        }
    }
    proof {
        let now = tasks.deep_view();
        assert(now.skip(i as int) =~= Seq::<UploadTaskView>::empty());
        reveal_with_fuel(Seq::filter, 1);
        assert(now.take(i as int) + now.skip(i as int).filter(p) =~= now);
    }
}

/// Drops every task that conflicts with the upload described, keeping the
/// others in order.
fn drop_conflicts(tasks: &mut Vec<UploadTask>, id: &str, name: &str, parent: &Option<String>)
    ensures
        final(tasks).deep_view() == old(tasks).deep_view().filter(
            clear_of(id@, name@, opt_view(*parent)),
        ),
{
    let ghost p = clear_of(id@, name@, opt_view(*parent));
    let ghost orig = tasks.deep_view();
    let mut i: usize = 0;
    proof {
        assert(orig.skip(0) =~= orig);
        assert(orig.take(0) + orig.filter(p) =~= orig.filter(p));
    }
    while i < tasks.len()
        invariant
            i <= tasks.len(),
            p == clear_of(id@, name@, opt_view(*parent)),
            orig.filter(p) == tasks.deep_view().take(i as int) + tasks.deep_view().skip(
                i as int,
            ).filter(p),
        decreases tasks.len() - i,
    {
        let ghost before = tasks.deep_view();
        proof {
            lemma_filter_skip_step(before, p, i as int);
        }
        if conflicts(&tasks[i], id, name, parent) {
            tasks.remove(i);
            proof {
                assert(tasks.deep_view().take(i as int) =~= before.take(i as int));
                assert(tasks.deep_view().skip(i as int) =~= before.skip(i + 1));
            }
        } else {
            proof {
                assert(before.take(i + 1) + before.skip(i + 1).filter(p) =~= before.take(i as int)
                    + (seq![before[i as int]] + before.skip(i + 1).filter(p)));
            }
            i += 1;
        }
    }
    proof {
        let now = tasks.deep_view();
        assert(now.skip(i as int) =~= Seq::<UploadTaskView>::empty());
        reveal_with_fuel(Seq::filter, 1);
        assert(now.take(i as int) + now.skip(i as int).filter(p) =~= now);
    }
}

/// The ids of the tasks that conflict with the upload described, in order.
fn conflicting_ids(tasks: &Vec<UploadTask>, id: &str, name: &str, parent: &Option<String>) -> (ids:
    Vec<String>)
    ensures
        ids.deep_view() == keys_of(
            tasks.deep_view().filter(conflicts_with(id@, name@, opt_view(*parent))),
        ),
{
    let ghost p = conflicts_with(id@, name@, opt_view(*parent));
    let ghost all = tasks.deep_view();
    let mut ids: Vec<String> = Vec::new();
    let mut i: usize = 0;
    proof {
        reveal_with_fuel(Seq::filter, 1);
        assert(all.take(0) =~= Seq::<UploadTaskView>::empty());
        assert(ids.deep_view() =~= keys_of(all.take(0).filter(p)));
    }
    while i < tasks.len()
        invariant
            i <= tasks.len(),
            all == tasks.deep_view(),
            p == conflicts_with(id@, name@, opt_view(*parent)),
            ids.deep_view() == keys_of(all.take(i as int).filter(p)),
        decreases tasks.len() - i,
    {
        let ghost before = ids.deep_view();
        proof {
            assert(all.take(i + 1) =~= all.take(i as int).push(all[i as int]));
            lemma_filter_push_step(all.take(i as int), all[i as int], p);
        }
        if conflicts(&tasks[i], id, name, parent) {
            let own = tasks[i].task_id.clone();
            ids.push(own);
            proof {
                assert(ids.deep_view() =~= before.push(all[i as int].task_id));
                assert(keys_of(all.take(i as int).filter(p).push(all[i as int])) =~= keys_of(
                    all.take(i as int).filter(p),
                ).push(all[i as int].task_id));
            }
        }
        i += 1;
    }
    proof {
        assert(all.take(i as int) =~= all);
    }
    ids
}

impl UploadQueueState {
    /// The ids of the failed and of the completed tasks that an upload
    /// with this id, name and folder supersedes.
    pub fn superseded(&self, task_id: &str, file_name: &str, parent_id: &Option<String>) -> (ids:
        (Vec<String>, Vec<String>))
        ensures
            ids.0.deep_view() == keys_of(
                self@.failed.filter(conflicts_with(task_id@, file_name@, opt_view(*parent_id))),
            ),
            ids.1.deep_view() == keys_of(
                self@.completed.filter(conflicts_with(task_id@, file_name@, opt_view(*parent_id))),
            ),
    {
        (
            conflicting_ids(&self.failed, task_id, file_name, parent_id),
            conflicting_ids(&self.completed, task_id, file_name, parent_id),
        )
    }

    /// Whether the queue satisfies its invariant.
    pub open spec fn wf(&self) -> bool {
        well_formed(self@)
    }

    /// Accepts a new upload, or says why not. On acceptance the finished
    /// and failed tasks that the new one supersedes leave the queue and the
    /// new record is returned.
    pub fn enqueue(
        &mut self,
        task_id: String,
        parent_id: Option<String>,
        file_name: String,
        local_path: String,
        total_size: u64,
        now: i64,
    ) -> (r: Result<UploadTask, QueueError>)
        ensures
            match enqueue_rejection(
                old(self)@,
                task_id@,
                opt_view(parent_id),
                file_name@,
                local_path@,
            ) {
                Some(e) => r == Err::<UploadTask, QueueError>(e) && *final(self) == *old(self),
                None => r is Ok && r->Ok_0@ == fresh_upload(
                    task_id@,
                    opt_view(parent_id),
                    file_name@,
                    local_path@,
                    total_size,
                    now,
                ) && final(self)@ == after_enqueue(old(self)@, r->Ok_0@),
            },
            old(self).wf() ==> final(self).wf(),
            stamps_match(old(self)@) ==> stamps_match(final(self)@),
    {
        if blank(file_name.as_str()) {
            return Err(QueueError::MissingIdentity);
        }
        if blank(local_path.as_str()) {
            return Err(QueueError::MissingPath);
        }
        if has_conflict(&self.active, task_id.as_str(), file_name.as_str(), &parent_id) {
            return Err(QueueError::DuplicateActive);
        }
        drop_conflicts(&mut self.failed, task_id.as_str(), file_name.as_str(), &parent_id);
        drop_conflicts(&mut self.completed, task_id.as_str(), file_name.as_str(), &parent_id);
        let task = UploadTask {
            task_id,
            file_name,
            local_path,
            size: Some(total_size),
            mime_type: None,
            parent_id,
            remote_id: None,
            status: UploadStatus::InProgress,
            started_at: now,
            completed_at: None,
            bytes_uploaded: Some(0),
            error_message: None,
            session_url: None,
        };
        let copy = task.clone();
        self.active.push(task);
        proof {
            assert(self.active.deep_view() =~= old(self).active.deep_view().push(copy@));
            lemma_first_index(
                old(self)@.active,
                conflicts_with(copy@.task_id, copy@.file_name, copy@.parent_id),
            );
            lemma_enqueue_well_formed(old(self)@, copy@);
        }
        Ok(copy)
    }

    /// Files the running task `task_id` as completed and returns its final
    /// record, or `None` when no such task is running.
    pub fn mark_success(&mut self, task_id: &str, remote_id: String, now: i64) -> (r: Option<
        UploadTask,
    >)
        ensures
            final(self)@ == after_success(old(self)@, task_id@, remote_id@, now),
            r is Some == is_active(old(self)@, task_id@),
            r is Some ==> r->0@ == final(self)@.completed[0],
            old(self).wf() ==> final(self).wf(),
            stamps_match(old(self)@) ==> stamps_match(final(self)@),
    {
        proof {
            lemma_success_well_formed(old(self)@, task_id@, remote_id@, now);
        }
        match position_of(&self.active, task_id) {
            Some(pos) => {
                let mut task = self.active.remove(pos);
                task.status = UploadStatus::Completed;
                task.completed_at = Some(now);
                task.remote_id = Some(remote_id);
                task.error_message = None;
                let copy = task.clone();
                self.completed.insert(0, task);
                proof {
                    let q = old(self)@;
                    assert(self.active.deep_view() =~= q.active.remove(pos as int));
                    assert(self.completed.deep_view() =~= q.completed.insert(0, copy@));
                    assert(copy@ == succeeded(q.active[pos as int], remote_id@, now));
                }
                Some(copy)
            },
            None => None,
        }
    }

    /// Files the running task `task_id` as failed with `message` and
    /// returns its final record. When the task is not running, a stale
    /// failure filed under the same id is dropped and `None` is returned.
    pub fn mark_failure(&mut self, task_id: &str, message: String, now: i64) -> (r: Option<
        UploadTask,
    >)
        ensures
            final(self)@ == after_failure(old(self)@, task_id@, message@, now),
            r is Some == is_active(old(self)@, task_id@),
            r is Some ==> r->0@ == final(self)@.failed[0],
            old(self).wf() ==> final(self).wf(),
            stamps_match(old(self)@) ==> stamps_match(final(self)@),
    {
        proof {
            lemma_failure_well_formed(old(self)@, task_id@, message@, now);
        }
        match position_of(&self.active, task_id) {
            Some(pos) => {
                let mut task = self.active.remove(pos);
                task.status = UploadStatus::Failed;
                task.completed_at = Some(now);
                task.error_message = Some(message);
                let copy = task.clone();
                self.failed.insert(0, task);
                proof {
                    let q = old(self)@;
                    assert(self.active.deep_view() =~= q.active.remove(pos as int));
                    assert(self.failed.deep_view() =~= q.failed.insert(0, copy@));
                    assert(copy@ == failed_with(q.active[pos as int], message@, now));
                }
                Some(copy)
            },
            None => {
                drop_id(&mut self.failed, task_id);
                None
            },
        }
    }

    /// Files the running task `task_id` as cancelled and returns its final
    /// record, or `None` when no such task is running.
    pub fn mark_cancelled(&mut self, task_id: &str, now: i64) -> (r: Option<UploadTask>)
        ensures
            final(self)@ == after_cancelled(old(self)@, task_id@, now),
            r is Some == is_active(old(self)@, task_id@),
            r is Some ==> r->0@ == final(self)@.failed[0],
            old(self).wf() ==> final(self).wf(),
            stamps_match(old(self)@) ==> stamps_match(final(self)@),
    {
        proof {
            lemma_cancelled_well_formed(old(self)@, task_id@, now);
        }
        match position_of(&self.active, task_id) {
            Some(pos) => {
                let mut task = self.active.remove(pos);
                task.status = UploadStatus::Cancelled;
                task.completed_at = Some(now);
                task.error_message = Some(owned(CANCELLED_UPLOAD_MESSAGE));
                let copy = task.clone();
                self.failed.insert(0, task);
                proof {
                    let q = old(self)@;
                    assert(self.active.deep_view() =~= q.active.remove(pos as int));
                    assert(self.failed.deep_view() =~= q.failed.insert(0, copy@));
                    assert(copy@ == cancelled(q.active[pos as int], now));
                }
                Some(copy)
            },
            None => None,
        }
    }

    /// Takes every task filed under `task_id` out of the queue, whatever
    /// its state.
    pub fn remove(&mut self, task_id: &str)
        ensures
            final(self)@ == after_remove(old(self)@, task_id@),
            old(self).wf() ==> final(self).wf(),
            stamps_match(old(self)@) ==> stamps_match(final(self)@),
    {
        proof {
            lemma_remove_well_formed(old(self)@, task_id@);
        }
        drop_id(&mut self.active, task_id);
        drop_id(&mut self.completed, task_id);
        drop_id(&mut self.failed, task_id);
    }

    /// Empties the history; running tasks stay.
    pub fn clear_history(&mut self)
        ensures
            final(self)@ == after_clear_history(old(self)@),
            old(self).wf() ==> final(self).wf(),
            stamps_match(old(self)@) ==> stamps_match(final(self)@),
    {
        proof {
            lemma_clear_well_formed(old(self)@);
        }
        self.completed.clear();
        self.failed.clear();
        proof {
            assert(self.completed.deep_view() =~= Seq::<UploadTaskView>::empty());
            assert(self.failed.deep_view() =~= Seq::<UploadTaskView>::empty());
        }
    }

    /// Drops the failed and cancelled tasks and returns their ids, in the
    /// order in which they were listed.
    pub fn clear_failed(&mut self) -> (ids: Vec<String>)
        ensures
            final(self)@ == after_clear_failed(old(self)@),
            ids.deep_view() == keys_of(old(self)@.failed),
            old(self).wf() ==> final(self).wf(),
            stamps_match(old(self)@) ==> stamps_match(final(self)@),
    {
        proof {
            lemma_clear_well_formed(old(self)@);
        }
        let mut ids: Vec<String> = Vec::new();
        let mut i: usize = 0;
        while i < self.failed.len()
            invariant
                i <= self.failed.len(),
                *self == *old(self),
                ids.deep_view() == keys_of(self.failed.deep_view().take(i as int)),
            decreases self.failed.len() - i,
        {
            let ghost before = ids.deep_view();
            let id = self.failed[i].task_id.clone();
            ids.push(id);
            proof {
                let all = self.failed.deep_view();
                assert(all[i as int].task_id == id@);
                assert(ids.deep_view() =~= before.push(id@));
                assert(all.take(i + 1) =~= all.take(i as int).push(all[i as int]));
                assert(keys_of(all.take(i + 1)) =~= keys_of(all.take(i as int)).push(id@));
            }
            i += 1;
        }
        proof {
            let all = self.failed.deep_view();
            assert(all.take(i as int) =~= all);
        }
        self.failed.clear();
        proof {
            assert(self.failed.deep_view() =~= Seq::<UploadTaskView>::empty());
        }
        ids
    }

    /// Records a progress tick of the running task `task_id` and returns
    /// the updated record. A tick is dropped, and nothing returned, when no
    /// such task is running, when the byte count lies below the count
    /// recorded last, or when it passes the size.
    pub fn report_progress(&mut self, task_id: &str, bytes_uploaded: u64, total_size: Option<u64>)
        -> (r: Option<UploadTask>)
        ensures
            final(self)@ == after_progress(old(self)@, task_id@, bytes_uploaded, total_size),
            r is Some == takes_tick(old(self)@, task_id@, bytes_uploaded, total_size),
            r is Some ==> r->0@ == progressed(
                old(self)@.active[first_index(
                    old(self)@.active,
                    key_is::<UploadTaskView>(task_id@),
                )],
                bytes_uploaded,
                total_size,
            ),
            old(self).wf() ==> final(self).wf(),
            stamps_match(old(self)@) ==> stamps_match(final(self)@),
    {
        proof {
            lemma_update_well_formed(old(self)@, task_id@, bytes_uploaded, total_size, None);
        }
        match position_of(&self.active, task_id) {
            Some(pos) => {
                let size = if total_size.is_some() {
                    total_size
                } else {
                    self.active[pos].size
                };
                let behind = match self.active[pos].bytes_uploaded {
                    Some(recorded) => bytes_uploaded < recorded,
                    None => false,
                };
                let beyond = match size {
                    Some(limit) => bytes_uploaded > limit,
                    None => false,
                };
                if behind || beyond {
                    return None;
                }
                let mut task = self.active[pos].clone();
                task.bytes_uploaded = Some(bytes_uploaded);
                task.size = size;
                let copy = task.clone();
                self.active.set(pos, task);
                proof {
                    let q = old(self)@;
                    assert(self.active.deep_view() =~= q.active.update(pos as int, copy@));
                }
                Some(copy)
            },
            None => None,
        }
    }

    /// Records the resumable session of the running task `task_id` and
    /// returns the updated record, or `None` when no such task is running.
    pub fn update_session(&mut self, task_id: &str, session_url: Option<String>) -> (r: Option<
        UploadTask,
    >)
        ensures
            final(self)@ == after_session(old(self)@, task_id@, opt_view(session_url)),
            r is Some == is_active(old(self)@, task_id@),
            r is Some ==> r->0@ == final(self)@.active[first_index(
                old(self)@.active,
                key_is::<UploadTaskView>(task_id@),
            )],
            old(self).wf() ==> final(self).wf(),
            stamps_match(old(self)@) ==> stamps_match(final(self)@),
    {
        proof {
            lemma_update_well_formed(old(self)@, task_id@, 0, None, opt_view(session_url));
        }
        match position_of(&self.active, task_id) {
            Some(pos) => {
                let mut task = self.active[pos].clone();
                task.session_url = session_url;
                let copy = task.clone();
                self.active.set(pos, task);
                proof {
                    let q = old(self)@;
                    assert(self.active.deep_view() =~= q.active.update(pos as int, copy@));
                }
                Some(copy)
            },
            None => None,
        }
    }
}

} // verus!
