//! The upload manager: the queue together with its store, its
//! cancellation registry, its meters and its concurrency limit.

use vstd::prelude::*;

use std::time::Instant;

use crate::cancel::{CancelRegistry, RegistryView};
use crate::clock::{current_timestamp, monotonic_now, nanos_since};
use crate::errors::{upload_error_message, upload_error_text, QueueError};
use crate::limiter::{PermitEvent, Permits, Semaphore, DEFAULT_UPLOAD_PERMITS};
use crate::models::{QueueView, UploadQueueState, UploadTask, UploadTaskView};
use crate::meters::{
    decision, listed, throttled_at, upload_rate, window_listed, windows_after, MarkView,
    PersistThrottle, UploadMeters, WindowView,
};
use crate::progress::RateReading;
use crate::text::{blank, is_blank, opt_view, owned, str_eq};
use crate::upload_manager::chunked::SIMPLE_UPLOAD_MAX_BYTES;
use crate::upload_manager::queue::{
    CANCELLED_UPLOAD_MESSAGE,
    active_position, after_cancelled, after_clear_failed, after_clear_history, after_enqueue,
    after_failure, after_progress, after_remove, after_session, after_success,
    cancelled_message, conflicts_with, enqueue_rejection, fresh_upload, is_active, progressed,
    takes_tick, well_formed,
};
use crate::upload_manager::restore::{
    lemma_restart_leaves_only_resumable, resumable, restore, restored, rewritten,
};
use crate::queue_model::{
    keys_of, lemma_filter_push_step, no_calls, one_call, push_removals, removals, upserts,
    without_key, StoreCall, StoreRequest,
};
use crate::task_sets::find;
use crate::upload_manager::state::position_of;
use crate::upload_manager::storage::{upsert_calls, UploadStore};

verus! {

/// One progress event of an upload. The rate is handed on as the reading
/// it was measured by.
#[derive(Debug)]
pub struct UploadProgressUpdate {
    pub task_id: String,
    pub bytes_uploaded: u64,
    pub expected_size: Option<u64>,
    pub speed: RateReading,
    pub timestamp_millis: i64,
}

/// Draws a random task id with `Uuid::new_v4` and renders it in the
/// hyphenated form, which is 36 characters long.
#[verifier::external_body]
fn fresh_task_id() -> (id: String)
    ensures
        id@.len() == 36,
{
    uuid::Uuid::new_v4().to_string()
}

/// Why an upload is refused before the queue is looked at: a blank name, a
/// blank path, or, for a single-request upload, a payload above the limit.
pub open spec fn input_rejection(name: Seq<char>, path: Seq<char>, len: nat, limit: Option<nat>)
    -> Option<QueueError> {
    if is_blank(name) {
        Some(QueueError::MissingIdentity)
    } else if is_blank(path) {
        Some(QueueError::MissingPath)
    } else if limit is Some && len > limit->0 {
        Some(QueueError::PayloadTooLarge)
    } else {
        None
    }
}

/// Whether a running task uploads a file of this name into this folder.
pub open spec fn target_busy(
    q: QueueView<UploadTaskView>,
    name: Seq<char>,
    parent: Option<Seq<char>>,
) -> bool {
    exists|i: int|
        0 <= i < q.active.len() && (#[trigger] q.active[i]).file_name == name
            && q.active[i].parent_id == parent
}

/// Schedules uploads: keeps the queue, mirrors it into the store, and
/// holds the stop flags and the permits of the workers.
pub struct UploadManager<S: UploadStore> {
    state: UploadQueueState,
    store: S,
    progress_meters: UploadMeters,
    persist_markers: PersistThrottle,
    cancel_tokens: CancelRegistry,
    limiter: Semaphore,
    small_upload_limit: usize,
    epoch: Instant,
    issued: Vec<StoreCall<UploadTask>>,
}

/// The rows that accepting `task` removes from the store: those of the
/// failed and of the completed tasks that it supersedes.
pub open spec fn superseded_rows(q: QueueView<UploadTaskView>, task: UploadTaskView) -> Seq<
    Seq<char>,
> {
    let hit = conflicts_with(task.task_id, task.file_name, task.parent_id);
    keys_of(q.failed.filter(hit)) + keys_of(q.completed.filter(hit))
}

impl<S: UploadStore> UploadManager<S> {
    /// The queue as a value.
    pub closed spec fn queue(&self) -> QueueView<UploadTaskView> {
        self.state@
    }

    /// The cancellation registry as a value.
    pub closed spec fn registry(&self) -> RegistryView {
        self.cancel_tokens@
    }

    /// The permits as a value.
    pub closed spec fn permits(&self) -> Permits {
        self.limiter.permits()
    }

    /// What was stored last of the progress of each upload, and when.
    pub closed spec fn throttle(&self) -> Seq<MarkView> {
        self.persist_markers@
    }

    /// The sample windows of the upload rates.
    pub closed spec fn windows(&self) -> Seq<WindowView> {
        self.progress_meters@
    }

    /// The largest payload that a single-request upload may carry.
    pub closed spec fn payload_limit(&self) -> nat {
        self.small_upload_limit as nat
    }

    /// The store behind the queue, as a value.
    pub closed spec fn stored(&self) -> S {
        self.store
    }

    /// What the last operation on the queue asked of the store, in order.
    /// The operations on the permits and the limits are no such operation.
    pub closed spec fn issued(&self) -> Seq<StoreRequest<UploadTaskView>> {
        self.issued.deep_view()
    }

    /// The invariant of the manager: queue and registry are well formed,
    /// and no upload has two windows or two throttle marks.
    pub closed spec fn wf(&self) -> bool {
        &&& self.state.wf()
        &&& self.cancel_tokens.wf()
        &&& self.progress_meters.wf()
        &&& self.persist_markers.wf()
    }

    /// What [`Self::wf`] says.
    pub proof fn lemma_wf_queue(&self)
        requires
            self.wf(),
        ensures
            well_formed(self.queue()),
            self.registry().well_formed(),
            crate::task_sets::unique_keys(self.windows()),
            crate::task_sets::unique_keys(self.throttle()),
    {
    }

    /// What all operations but the permit operations leave alone.
    pub open spec fn limits_kept(before: Self, after: Self) -> bool {
        after.permits() == before.permits() && after.payload_limit() == before.payload_limit()
    }

    /// The gauges of the progress are as they were.
    pub open spec fn gauges_kept(before: Self, after: Self) -> bool {
        after.throttle() == before.throttle() && after.windows() == before.windows()
    }

    /// What a restart at time `now` over the rows `rows` leaves: the queue
    /// rebuilt from the rows, and the store asked to write every row that
    /// the restart rewrote.
    pub open spec fn restarted_at(m: Self, rows: Seq<UploadTaskView>, now: i64) -> bool {
        &&& m.queue() == restored(rows, now)
        &&& m.issued() == upserts(rewritten(rows, now))
    }

    /// Builds a manager over `store` from the rows that were loaded from
    /// it, as of time `now`: unfinished uploads that cannot be resumed are
    /// filed as failed, and the store is asked to write each of them,
    /// before the queue can be observed. The uploads that are left running
    /// can be resumed, and a stop flag is registered for each of them.
    pub fn from_rows(store: S, rows: &Vec<UploadTask>, now: i64) -> (m: Self)
        ensures
            m.wf(),
            Self::restarted_at(m, rows.deep_view(), now),
            forall|i: int|
                0 <= i < m.queue().active.len() ==> resumable(#[trigger] m.queue().active[i]),
            forall|i: int|
                0 <= i < m.queue().active.len() ==> m.registry().is_registered(
                    (#[trigger] m.queue().active[i]).task_id,
                ),
            m.permits() == (Permits { limit: DEFAULT_UPLOAD_PERMITS as nat, held: 0 }),
            m.payload_limit() == SIMPLE_UPLOAD_MAX_BYTES,
            m.throttle().len() == 0,
            m.windows().len() == 0,
    {
        let restart = restore(rows, now);
        let requests = upsert_calls(&restart.rewritten);
        let mut tokens = CancelRegistry::new();
        let mut j: usize = 0;
        while j < restart.state.active.len()
            invariant
                j <= restart.state.active.len(),
                tokens.wf(),
                forall|k: int|
                    0 <= k < j ==> tokens@.is_registered(
                        (#[trigger] restart.state@.active[k]).task_id,
                    ),
            decreases restart.state.active.len() - j,
        {
            let ghost before = tokens@;
            let _ = tokens.register(restart.state.active[j].task_id.as_str());
            proof {
                let id = restart.state@.active[j as int].task_id;
                assert forall|k: int| 0 <= k < j + 1 implies tokens@.is_registered(
                    (#[trigger] restart.state@.active[k]).task_id,
                ) by {
                    crate::cancel::lemma_register_keeps(
                        before,
                        id,
                        restart.state@.active[k].task_id,
                    );
                }
            }
            j += 1;
        }
        proof {
            lemma_restart_leaves_only_resumable(rows.deep_view(), now);
        }
        let mut m = UploadManager {
            state: restart.state,
            store,
            progress_meters: UploadMeters::new(),
            persist_markers: PersistThrottle::new(),
            cancel_tokens: tokens,
            limiter: Semaphore::new(DEFAULT_UPLOAD_PERMITS),
            small_upload_limit: SIMPLE_UPLOAD_MAX_BYTES,
            epoch: monotonic_now(),
            issued: Vec::new(),
        };
        m.hand_over(requests);
        m
    }

    /// Builds a manager over `store` and rebuilds the queue from the rows
    /// that the store holds, as of time `now`; see [`Self::from_rows`].
    pub fn new_at(store: S, now: i64) -> (m: Self)
        ensures
            m.wf(),
            exists|rows: Seq<UploadTaskView>|
                #[trigger] Self::restarted_at(m, rows, now),
            forall|i: int|
                0 <= i < m.queue().active.len() ==> resumable(#[trigger] m.queue().active[i]),
            forall|i: int|
                0 <= i < m.queue().active.len() ==> m.registry().is_registered(
                    (#[trigger] m.queue().active[i]).task_id,
                ),
            m.permits() == (Permits { limit: DEFAULT_UPLOAD_PERMITS as nat, held: 0 }),
            m.payload_limit() == SIMPLE_UPLOAD_MAX_BYTES,
            m.throttle().len() == 0,
            m.windows().len() == 0,
    {
        let mut store = store;
        let rows = store.load();
        let m = Self::from_rows(store, &rows, now);
        proof {
            assert(Self::restarted_at(m, rows.deep_view(), now));
        }
        m
    }

    /// Builds a manager over `store` as of the current time; see
    /// [`Self::new_at`].
    pub fn new(store: S) -> (m: Self)
        ensures
            m.wf(),
            exists|rows: Seq<UploadTaskView>, now: i64|
                #[trigger] Self::restarted_at(m, rows, now),
            forall|i: int|
                0 <= i < m.queue().active.len() ==> resumable(#[trigger] m.queue().active[i]),
            forall|i: int|
                0 <= i < m.queue().active.len() ==> m.registry().is_registered(
                    (#[trigger] m.queue().active[i]).task_id,
                ),
            m.permits() == (Permits { limit: DEFAULT_UPLOAD_PERMITS as nat, held: 0 }),
            m.payload_limit() == SIMPLE_UPLOAD_MAX_BYTES,
            m.throttle().len() == 0,
            m.windows().len() == 0,
    {
        Self::new_at(store, current_timestamp())
    }

    /// Sets the largest payload that a single-request upload may carry.
    pub fn set_payload_limit(&mut self, limit: usize)
        ensures
            final(self).wf() == old(self).wf(),
            final(self).queue() == old(self).queue(),
            final(self).registry() == old(self).registry(),
            final(self).permits() == old(self).permits(),
            Self::gauges_kept(*old(self), *final(self)),
            final(self).issued() == old(self).issued(),
            final(self).payload_limit() == limit,
    {
        self.small_upload_limit = limit;
    }

    /// The store behind the queue.
    pub fn store(&self) -> (s: &S)
        ensures
            *s == self.stored(),
    {
        &self.store
    }

    /// What the last operation on the queue asked of the store.
    pub fn last_requests(&self) -> (calls: &Vec<StoreCall<UploadTask>>)
        ensures
            calls.deep_view() == self.issued(),
    {
        &self.issued
    }

    /// A copy of the queue.
    pub fn snapshot(&self) -> (s: UploadQueueState)
        ensures
            s@ == self.queue(),
    {
        self.state.clone()
    }

    /// What accepting or refusing the upload `task` does, and what is
    /// returned. An upload that is refused changes nothing and asks
    /// nothing of the store. One that is accepted is filed as the youngest
    /// running task; the store is asked to delete the rows that it
    /// supersedes and then to write it; and its stop flag is registered.
    pub open spec fn enqueued_as(
        before: Self,
        after: Self,
        r: Result<UploadQueueState, String>,
        task: UploadTaskView,
    ) -> bool {
        &&& Self::limits_kept(before, after)
        &&& Self::gauges_kept(before, after)
        &&& match enqueue_rejection(
            before.queue(),
            task.task_id,
            task.parent_id,
            task.file_name,
            task.local_path,
        ) {
            Some(e) => {
                &&& r is Err
                &&& r->Err_0@ == upload_error_text(e)
                &&& after.queue() == before.queue()
                &&& after.registry() == before.registry()
                &&& after.issued() == Seq::<StoreRequest<UploadTaskView>>::empty()
            },
            None => {
                &&& r is Ok
                &&& r->Ok_0@ == after.queue()
                &&& after.queue() == after_enqueue(before.queue(), task)
                &&& after.registry() == before.registry().after_register(task.task_id)
                &&& after.issued() == removals::<UploadTaskView>(superseded_rows(before.queue(), task)).push(
                    StoreRequest::Upsert(task),
                )
            },
        }
    }

    /// What refusing an upload for its input alone does: nothing but
    /// return the text of the error.
    pub open spec fn refused(
        before: Self,
        after: Self,
        r: Result<UploadQueueState, String>,
        e: QueueError,
    ) -> bool {
        &&& Self::limits_kept(before, after)
        &&& Self::gauges_kept(before, after)
        &&& r is Err
        &&& r->Err_0@ == upload_error_text(e)
        &&& after.queue() == before.queue()
        &&& after.registry() == before.registry()
        &&& after.issued() == Seq::<StoreRequest<UploadTaskView>>::empty()
    }

    /// Accepts an upload under the id `task_id` at time `now`, or refuses
    /// it; see [`Self::enqueued_as`].
    pub fn enqueue_task(
        &mut self,
        task_id: String,
        parent_id: Option<String>,
        file_name: String,
        local_path: String,
        total_size: u64,
        now: i64,
    ) -> (r: Result<UploadQueueState, String>)
        requires
            old(self).wf(),
        ensures
            final(self).wf(),
            Self::enqueued_as(
                *old(self),
                *final(self),
                r,
                fresh_upload(
                    task_id@,
                    opt_view(parent_id),
                    file_name@,
                    local_path@,
                    total_size,
                    now,
                ),
            ),
    {
        let (stale_failed, stale_completed) = self.state.superseded(
            task_id.as_str(),
            file_name.as_str(),
            &parent_id,
        );
        let id = task_id.clone();
        match self.state.enqueue(task_id, parent_id, file_name, local_path, total_size, now) {
            Err(e) => {
                self.hand_over(no_calls());
                Err(upload_error_message(e))
            },
            Ok(task) => {
                let ghost filed = task@;
                let mut requests = no_calls();
                push_removals(&mut requests, &stale_failed);
                push_removals(&mut requests, &stale_completed);
                let ghost gone = requests.deep_view();
                requests.push(StoreCall::Upsert(task));
                proof {
                    let a = stale_failed.deep_view();
                    let b = stale_completed.deep_view();
                    assert(gone =~= removals::<UploadTaskView>(a + b));
                    assert(requests.deep_view() =~= gone.push(StoreRequest::Upsert(filed)));
                }
                self.hand_over(requests);
                let _ = self.cancel_tokens.register(id.as_str());
                Ok(self.state.clone())
            },
        }
    }

    /// Accepts a small file for upload in a single request. The payload
    /// stays with the caller, who hands it to the worker; here only its
    /// length counts. Refused are a blank name, a blank path, a payload
    /// above the limit, and a file that is already being uploaded to the
    /// same folder. Otherwise the upload is accepted under a fresh id,
    /// unless that id is in use, which is reported like a file that is
    /// already in the queue.
    pub fn enqueue_small_file(
        &mut self,
        parent_id: Option<String>,
        file_name: String,
        local_path: String,
        bytes: &Vec<u8>,
        overwrite: bool,
    ) -> (r: Result<UploadQueueState, String>)
        requires
            old(self).wf(),
        ensures
            final(self).wf(),
            match input_rejection(
                file_name@,
                local_path@,
                bytes@.len(),
                Some(old(self).payload_limit()),
            ) {
                Some(e) => Self::refused(*old(self), *final(self), r, e),
                None => exists|id: Seq<char>, now: i64|
                    {
                        &&& id.len() == 36
                        &&& #[trigger] Self::enqueued_as(
                            *old(self),
                            *final(self),
                            r,
                            fresh_upload(
                                id,
                                opt_view(parent_id),
                                file_name@,
                                local_path@,
                                bytes@.len() as u64,
                                now,
                            ),
                        )
                    },
            },
            target_busy(old(self).queue(), file_name@, opt_view(parent_id)) ==> r is Err,
    {
        if blank(file_name.as_str()) {
            self.hand_over(no_calls());
            return Err(upload_error_message(QueueError::MissingIdentity));
        }
        if blank(local_path.as_str()) {
            self.hand_over(no_calls());
            return Err(upload_error_message(QueueError::MissingPath));
        }
        if bytes.len() > self.small_upload_limit {
            self.hand_over(no_calls());
            return Err(upload_error_message(QueueError::PayloadTooLarge));
        }
        let total_size = bytes.len() as u64;
        self.enqueue_fresh(parent_id, file_name, local_path, total_size)
    }

    /// Accepts a large file of `total_size` bytes for upload in chunks.
    /// Refused are a blank name, a blank path, and a file that is already
    /// being uploaded to the same folder. Otherwise the upload is accepted
    /// under a fresh id, unless that id is in use, which is reported like
    /// a file that is already in the queue.
    pub fn enqueue_large_file(
        &mut self,
        parent_id: Option<String>,
        file_name: String,
        local_path: String,
        total_size: u64,
        overwrite: bool,
    ) -> (r: Result<UploadQueueState, String>)
        requires
            old(self).wf(),
        ensures
            final(self).wf(),
            match input_rejection(file_name@, local_path@, total_size as nat, None) {
                Some(e) => Self::refused(*old(self), *final(self), r, e),
                None => exists|id: Seq<char>, now: i64|
                    {
                        &&& id.len() == 36
                        &&& #[trigger] Self::enqueued_as(
                            *old(self),
                            *final(self),
                            r,
                            fresh_upload(
                                id,
                                opt_view(parent_id),
                                file_name@,
                                local_path@,
                                total_size,
                                now,
                            ),
                        )
                    },
            },
            target_busy(old(self).queue(), file_name@, opt_view(parent_id)) ==> r is Err,
    {
        if blank(file_name.as_str()) {
            self.hand_over(no_calls());
            return Err(upload_error_message(QueueError::MissingIdentity));
        }
        if blank(local_path.as_str()) {
            self.hand_over(no_calls());
            return Err(upload_error_message(QueueError::MissingPath));
        }
        self.enqueue_fresh(parent_id, file_name, local_path, total_size)
    }

    /// Draws an id, reads the clock and accepts the upload under them.
    fn enqueue_fresh(
        &mut self,
        parent_id: Option<String>,
        file_name: String,
        local_path: String,
        total_size: u64,
    ) -> (r: Result<UploadQueueState, String>)
        requires
            old(self).wf(),
            !is_blank(file_name@),
            !is_blank(local_path@),
        ensures
            final(self).wf(),
            exists|id: Seq<char>, now: i64|
                {
                    &&& id.len() == 36
                    &&& #[trigger] Self::enqueued_as(
                        *old(self),
                        *final(self),
                        r,
                        fresh_upload(
                            id,
                            opt_view(parent_id),
                            file_name@,
                            local_path@,
                            total_size,
                            now,
                        ),
                    )
                },
            target_busy(old(self).queue(), file_name@, opt_view(parent_id)) ==> r is Err,
    {
        let task_id = fresh_task_id();
        let now = current_timestamp();
        let ghost id = task_id@;
        let ghost task = fresh_upload(
            id,
            opt_view(parent_id),
            file_name@,
            local_path@,
            total_size,
            now,
        );
        proof {
            if target_busy(old(self).queue(), file_name@, opt_view(parent_id)) {
                let q = old(self).queue();
                let busy = conflicts_with(id, file_name@, opt_view(parent_id));
                let i = choose|i: int|
                    0 <= i < q.active.len() && (#[trigger] q.active[i]).file_name == file_name@
                        && q.active[i].parent_id == opt_view(parent_id);
                crate::queue_model::lemma_first_index(q.active, busy);
                assert(busy(q.active[i]));
            }
        }
        let r = self.enqueue_task(task_id, parent_id, file_name, local_path, total_size, now);
        proof {
            assert(Self::enqueued_as(*old(self), *self, r, task));
        }
        r
    }

    /// Asks the running upload `task_id` to stop. The queue does not
    /// change and the store is not asked anything: the worker files the
    /// task once it has stopped. Fails when no stop flag is registered for
    /// the task.
    pub fn cancel(&mut self, task_id: &str) -> (r: Result<UploadQueueState, String>)
        requires
            old(self).wf(),
        ensures
            final(self).wf(),
            Self::limits_kept(*old(self), *final(self)),
            Self::gauges_kept(*old(self), *final(self)),
            final(self).queue() == old(self).queue(),
            final(self).issued() == Seq::<StoreRequest<UploadTaskView>>::empty(),
            final(self).registry() == old(self).registry().after_signal(task_id@),
            r is Ok == old(self).registry().is_registered(task_id@),
            r is Ok ==> r->Ok_0@ == final(self).queue(),
            r is Err ==> r->Err_0@ == upload_error_text(QueueError::NotFound),
    {
        self.hand_over(no_calls());
        if self.cancel_tokens.signal(task_id) {
            Ok(self.state.clone())
        } else {
            Err(upload_error_message(QueueError::NotFound))
        }
    }

    /// Takes the upload `task_id` out of the queue, whatever its state,
    /// and asks the store to delete its row. A running worker is told to
    /// stop first; it finds its flag gone and stops.
    pub fn remove(&mut self, task_id: &str) -> (r: Result<UploadQueueState, String>)
        requires
            old(self).wf(),
        ensures
            final(self).wf(),
            Self::limits_kept(*old(self), *final(self)),
            r is Ok,
            r->Ok_0@ == final(self).queue(),
            final(self).queue() == after_remove(old(self).queue(), task_id@),
            final(self).registry() == old(self).registry().after_signal(task_id@).after_clear(
                task_id@,
            ),
            final(self).throttle() == without_key(old(self).throttle(), task_id@),
            final(self).windows() == without_key(old(self).windows(), task_id@),
            final(self).issued() == seq![StoreRequest::<UploadTaskView>::Remove(task_id@)],
    {
        let _ = self.cancel_tokens.signal(task_id);
        self.state.remove(task_id);
        self.hand_over(one_call(StoreCall::Remove(owned(task_id))));
        self.progress_meters.forget(task_id);
        self.persist_markers.forget(task_id);
        self.cancel_tokens.clear(task_id);
        Ok(self.state.clone())
    }

    /// Empties the history in the queue and asks the store to delete the
    /// rows of the finished uploads; running uploads stay.
    pub fn clear_history(&mut self) -> (r: Result<UploadQueueState, String>)
        requires
            old(self).wf(),
        ensures
            final(self).wf(),
            Self::limits_kept(*old(self), *final(self)),
            final(self).registry() == old(self).registry(),
            r is Ok,
            r->Ok_0@ == final(self).queue(),
            final(self).queue() == after_clear_history(old(self).queue()),
            final(self).throttle() == old(self).throttle().filter(
                listed(keys_of(old(self).queue().active)),
            ),
            final(self).windows() == old(self).windows().filter(
                window_listed(keys_of(old(self).queue().active)),
            ),
            final(self).issued() == seq![StoreRequest::<UploadTaskView>::ClearHistory],
    {
        self.state.clear_history();
        self.hand_over(one_call(StoreCall::ClearHistory));
        let running = self.active_ids();
        self.progress_meters.retain_only(&running);
        self.persist_markers.retain_only(&running);
        Ok(self.state.clone())
    }

    /// Drops the failed and cancelled uploads from the queue and asks the
    /// store to delete the row of each of them, in the order of the queue.
    pub fn clear_failed_tasks(&mut self) -> (r: Result<UploadQueueState, String>)
        requires
            old(self).wf(),
        ensures
            final(self).wf(),
            Self::limits_kept(*old(self), *final(self)),
            Self::gauges_kept(*old(self), *final(self)),
            final(self).registry() == old(self).registry(),
            r is Ok,
            r->Ok_0@ == final(self).queue(),
            final(self).queue() == after_clear_failed(old(self).queue()),
            final(self).issued() == removals::<UploadTaskView>(
                keys_of(old(self).queue().failed),
            ),
    {
        let ids = self.state.clear_failed();
        let mut requests = no_calls();
        push_removals(&mut requests, &ids);
        proof {
            assert(Seq::<StoreRequest<UploadTaskView>>::empty() + removals::<UploadTaskView>(
                ids.deep_view(),
            ) =~= removals::<UploadTaskView>(ids.deep_view()));
        }
        self.hand_over(requests);
        Ok(self.state.clone())
    }

    /// What the terminal transition of the upload `id` does beside the
    /// queue, where `task` is the record as it was filed: if the upload
    /// was running, its stop flag, its window and its throttle mark are
    /// gone, the store was asked to write the record, and the last event
    /// reports the bytes and the size of the record at time `now`, without
    /// a rate; if not, nothing has changed, the store was not asked
    /// anything and there is no event.
    pub open spec fn settled(
        before: Self,
        after: Self,
        id: Seq<char>,
        task: UploadTaskView,
        r: Option<UploadProgressUpdate>,
        now: i64,
    ) -> bool {
        &&& Self::limits_kept(before, after)
        &&& r is Some == is_active(before.queue(), id)
        &&& if is_active(before.queue(), id) {
            &&& after.registry() == before.registry().after_clear(id)
            &&& after.windows() == without_key(before.windows(), id)
            &&& after.throttle() == without_key(before.throttle(), id)
            &&& after.issued() == seq![StoreRequest::Upsert(task)]
            &&& last_event(r->0, id, task)
            &&& r->0.speed is Unchanged
            &&& r->0.timestamp_millis == now
        } else {
            &&& after.registry() == before.registry()
            &&& Self::gauges_kept(before, after)
            &&& after.issued() == Seq::<StoreRequest<UploadTaskView>>::empty()
        }
    }

    /// What [`Self::mark_success_at`] does: the running upload is filed as
    /// completed.
    pub open spec fn succeeded_at(
        before: Self,
        after: Self,
        id: Seq<char>,
        remote_id: Seq<char>,
        r: Option<UploadProgressUpdate>,
        now: i64,
    ) -> bool {
        &&& after.queue() == after_success(before.queue(), id, remote_id, now)
        &&& Self::settled(before, after, id, after.queue().completed[0], r, now)
    }

    /// What [`Self::mark_failure_at`] does: the running upload is filed as
    /// failed. When the upload is not running, a stale failure under the
    /// same id is dropped from the queue.
    pub open spec fn failed_at(
        before: Self,
        after: Self,
        id: Seq<char>,
        message: Seq<char>,
        r: Option<UploadProgressUpdate>,
        now: i64,
    ) -> bool {
        &&& after.queue() == after_failure(before.queue(), id, message, now)
        &&& Self::settled(before, after, id, after.queue().failed[0], r, now)
    }

    /// What [`Self::mark_cancelled_at`] does: the running upload is filed
    /// as cancelled.
    pub open spec fn cancelled_at(
        before: Self,
        after: Self,
        id: Seq<char>,
        r: Option<UploadProgressUpdate>,
        now: i64,
    ) -> bool {
        &&& after.queue() == after_cancelled(before.queue(), id, now)
        &&& Self::settled(before, after, id, after.queue().failed[0], r, now)
    }

    /// What [`Self::complete_at`] does: the id of the remote item counts
    /// as success, the cancellation text as cancelled, any other text as
    /// failure.
    pub open spec fn completed_at(
        before: Self,
        after: Self,
        id: Seq<char>,
        outcome: Result<String, String>,
        r: Option<UploadProgressUpdate>,
        now: i64,
    ) -> bool {
        match outcome {
            Ok(remote_id) => Self::succeeded_at(before, after, id, remote_id@, r, now),
            Err(text) => if text@ == cancelled_message() {
                Self::cancelled_at(before, after, id, r, now)
            } else {
                Self::failed_at(before, after, id, text@, r, now)
            },
        }
    }

    /// Files the running upload `task_id` as completed at time `now`; see
    /// [`Self::succeeded_at`]. Nothing happens when the upload is not
    /// running.
    pub fn mark_success_at(&mut self, task_id: &str, remote_id: String, now: i64) -> (r: Option<
        UploadProgressUpdate,
    >)
        requires
            old(self).wf(),
        ensures
            final(self).wf(),
            Self::succeeded_at(*old(self), *final(self), task_id@, remote_id@, r, now),
    {
        match self.state.mark_success(task_id, remote_id, now) {
            Some(task) => Some(self.settle(task_id, &task, now)),
            None => {
                self.hand_over(no_calls());
                None
            },
        }
    }

    /// Files the running upload `task_id` as failed with `message` at time
    /// `now`; see [`Self::failed_at`].
    pub fn mark_failure_at(&mut self, task_id: &str, message: String, now: i64) -> (r: Option<
        UploadProgressUpdate,
    >)
        requires
            old(self).wf(),
        ensures
            final(self).wf(),
            Self::failed_at(*old(self), *final(self), task_id@, message@, r, now),
    {
        match self.state.mark_failure(task_id, message, now) {
            Some(task) => Some(self.settle(task_id, &task, now)),
            None => {
                self.hand_over(no_calls());
                None
            },
        }
    }

    /// Files the running upload `task_id` as cancelled at time `now`; see
    /// [`Self::cancelled_at`]. Nothing happens when the upload is not
    /// running.
    pub fn mark_cancelled_at(&mut self, task_id: &str, now: i64) -> (r: Option<
        UploadProgressUpdate,
    >)
        requires
            old(self).wf(),
        ensures
            final(self).wf(),
            Self::cancelled_at(*old(self), *final(self), task_id@, r, now),
    {
        match self.state.mark_cancelled(task_id, now) {
            Some(task) => Some(self.settle(task_id, &task, now)),
            None => {
                self.hand_over(no_calls());
                None
            },
        }
    }

    /// Files the upload `task_id` according to what its worker returned,
    /// at time `now`; see [`Self::completed_at`].
    pub fn complete_at(&mut self, task_id: &str, outcome: Result<String, String>, now: i64) -> (r:
        Option<UploadProgressUpdate>)
        requires
            old(self).wf(),
        ensures
            final(self).wf(),
            Self::completed_at(*old(self), *final(self), task_id@, outcome, r, now),
    {
        match outcome {
            Ok(remote_id) => self.mark_success_at(task_id, remote_id, now),
            Err(text) => {
                if str_eq(text.as_str(), CANCELLED_UPLOAD_MESSAGE) {
                    self.mark_cancelled_at(task_id, now)
                } else {
                    self.mark_failure_at(task_id, text, now)
                }
            },
        }
    }

    /// Files the upload `task_id` according to what its worker returned,
    /// as of the current time; see [`Self::complete_at`].
    pub fn complete(&mut self, task_id: &str, outcome: Result<String, String>) -> (r: Option<
        UploadProgressUpdate,
    >)
        requires
            old(self).wf(),
        ensures
            final(self).wf(),
            exists|now: i64|
                #[trigger] Self::completed_at(*old(self), *final(self), task_id@, outcome, r, now),
    {
        let now = current_timestamp();
        let ghost returned = outcome;
        let r = self.complete_at(task_id, outcome, now);
        proof {
            assert(Self::completed_at(*old(self), *self, task_id@, returned, r, now));
        }
        r
    }

    /// Files the running upload `task_id` as completed, as of the current
    /// time; see [`Self::mark_success_at`].
    pub fn mark_success(&mut self, task_id: &str, remote_id: String) -> (r: Option<
        UploadProgressUpdate,
    >)
        requires
            old(self).wf(),
        ensures
            final(self).wf(),
            exists|now: i64|
                #[trigger] Self::succeeded_at(*old(self), *final(self), task_id@, remote_id@, r, now),
    {
        let now = current_timestamp();
        let ghost rid = remote_id@;
        let r = self.mark_success_at(task_id, remote_id, now);
        proof {
            assert(Self::succeeded_at(*old(self), *self, task_id@, rid, r, now));
        }
        r
    }

    /// Files the running upload `task_id` as failed, as of the current
    /// time; see [`Self::mark_failure_at`].
    pub fn mark_failure(&mut self, task_id: &str, message: String) -> (r: Option<
        UploadProgressUpdate,
    >)
        requires
            old(self).wf(),
        ensures
            final(self).wf(),
            exists|now: i64|
                #[trigger] Self::failed_at(*old(self), *final(self), task_id@, message@, r, now),
    {
        let now = current_timestamp();
        let ghost text = message@;
        let r = self.mark_failure_at(task_id, message, now);
        proof {
            assert(Self::failed_at(*old(self), *self, task_id@, text, r, now));
        }
        r
    }

    /// Files the running upload `task_id` as cancelled, as of the current
    /// time; see [`Self::mark_cancelled_at`].
    pub fn mark_cancelled(&mut self, task_id: &str) -> (r: Option<UploadProgressUpdate>)
        requires
            old(self).wf(),
        ensures
            final(self).wf(),
            exists|now: i64| #[trigger] Self::cancelled_at(*old(self), *final(self), task_id@, r, now),
    {
        let now = current_timestamp();
        let r = self.mark_cancelled_at(task_id, now);
        proof {
            assert(Self::cancelled_at(*old(self), *self, task_id@, r, now));
        }
        r
    }

    /// What [`Self::report_progress_at`] does. A tick that the queue does
    /// not take changes nothing and yields no event. One that it takes is
    /// recorded in the queue; the store is asked to write the record if
    /// the throttle lets the tick through; and the event carries the bytes
    /// of the tick, the size then recorded, the reading of the rate, and
    /// the time given.
    pub open spec fn ticked_at(
        before: Self,
        after: Self,
        id: Seq<char>,
        bytes: u64,
        total: Option<u64>,
        r: Option<UploadProgressUpdate>,
        now: u128,
        timestamp_millis: i64,
    ) -> bool {
        let task = progressed(before.queue().active[active_position(before.queue(), id)], bytes, total);
        let due = decision(find(before.throttle(), id), bytes, now);
        &&& Self::limits_kept(before, after)
        &&& after.registry() == before.registry()
        &&& after.queue() == after_progress(before.queue(), id, bytes, total)
        &&& r is Some == takes_tick(before.queue(), id, bytes, total)
        &&& if r is Some {
            &&& r->0.task_id@ == id
            &&& r->0.bytes_uploaded == bytes
            &&& r->0.expected_size == task.size
            &&& r->0.speed == upload_rate(find(before.windows(), id), bytes, now)
            &&& r->0.timestamp_millis == timestamp_millis
            &&& after.windows() == windows_after(before.windows(), id, bytes, now)
            &&& throttled_at(before.throttle(), after.throttle(), id, bytes, due, now)
            &&& after.issued() == if due {
                seq![StoreRequest::Upsert(task)]
            } else {
                Seq::<StoreRequest<UploadTaskView>>::empty()
            }
        } else {
            &&& Self::gauges_kept(before, after)
            &&& after.issued() == Seq::<StoreRequest<UploadTaskView>>::empty()
        }
    }

    /// Records a progress tick of the running upload `task_id`, taken at
    /// `now` nanoseconds of the monotonic clock and at the wall time
    /// `timestamp_millis`, and returns the event to broadcast; see
    /// [`Self::ticked_at`].
    pub fn report_progress_at(
        &mut self,
        task_id: &str,
        bytes_uploaded: u64,
        total_size: Option<u64>,
        now: u128,
        timestamp_millis: i64,
    ) -> (r: Option<UploadProgressUpdate>)
        requires
            old(self).wf(),
        ensures
            final(self).wf(),
            Self::ticked_at(
                *old(self),
                *final(self),
                task_id@,
                bytes_uploaded,
                total_size,
                r,
                now,
                timestamp_millis,
            ),
    {
        match self.state.report_progress(task_id, bytes_uploaded, total_size) {
            Some(task) => {
                if self.persist_markers.should_persist_progress(task_id, bytes_uploaded, now) {
                    self.hand_over(one_call(StoreCall::Upsert(task.clone())));
                } else {
                    self.hand_over(no_calls());
                }
                let speed = self.progress_meters.compute_speed(task_id, bytes_uploaded, now);
                Some(
                    UploadProgressUpdate {
                        task_id: owned(task_id),
                        bytes_uploaded,
                        expected_size: task.size,
                        speed,
                        timestamp_millis,
                    },
                )
            },
            None => {
                self.hand_over(no_calls());
                None
            },
        }
    }

    /// Records a progress tick of the running upload `task_id` as of now;
    /// see [`Self::report_progress_at`].
    pub fn report_progress(&mut self, task_id: &str, bytes_uploaded: u64, total_size: Option<u64>)
        -> (r: Option<UploadProgressUpdate>)
        requires
            old(self).wf(),
        ensures
            final(self).wf(),
            exists|now: u128, timestamp_millis: i64|
                #[trigger] Self::ticked_at(
                    *old(self),
                    *final(self),
                    task_id@,
                    bytes_uploaded,
                    total_size,
                    r,
                    now,
                    timestamp_millis,
                ),
    {
        let now = nanos_since(&self.epoch);
        let timestamp_millis = current_timestamp();
        let r = self.report_progress_at(task_id, bytes_uploaded, total_size, now, timestamp_millis);
        proof {
            assert(Self::ticked_at(
                *old(self),
                *self,
                task_id@,
                bytes_uploaded,
                total_size,
                r,
                now,
                timestamp_millis,
            ));
        }
        r
    }

    /// Records the session of the running upload `task_id` in the queue
    /// and asks the store to write the record. Nothing happens when the
    /// upload is not running.
    pub fn update_task_session(&mut self, task_id: &str, upload_url: Option<String>)
        requires
            old(self).wf(),
        ensures
            final(self).wf(),
            Self::limits_kept(*old(self), *final(self)),
            Self::gauges_kept(*old(self), *final(self)),
            final(self).registry() == old(self).registry(),
            final(self).queue() == after_session(old(self).queue(), task_id@, opt_view(upload_url)),
            final(self).issued() == if is_active(old(self).queue(), task_id@) {
                seq![
                    StoreRequest::Upsert(
                        final(self).queue().active[active_position(old(self).queue(), task_id@)],
                    ),
                ]
            } else {
                Seq::<StoreRequest<UploadTaskView>>::empty()
            },
    {
        match self.state.update_session(task_id, upload_url) {
            Some(task) => {
                self.hand_over(one_call(StoreCall::Upsert(task)));
            },
            None => {
                self.hand_over(no_calls());
            },
        }
    }

    /// The session of the running upload `task_id`, if it has one, and the
    /// number of bytes that are recorded as sent; nothing of either when
    /// the upload is not running.
    pub fn resume_state(&self, task_id: &str) -> (r: (Option<String>, u64))
        ensures
            is_active(self.queue(), task_id@) ==> {
                let task = self.queue().active[active_position(self.queue(), task_id@)];
                &&& opt_view(r.0) == task.session_url
                &&& r.1 == match task.bytes_uploaded {
                    Some(bytes) => bytes,
                    None => 0,
                }
            },
            !is_active(self.queue(), task_id@) ==> r.0 is None && r.1 == 0,
    {
        match position_of(&self.state.active, task_id) {
            Some(pos) => {
                let bytes = match self.state.active[pos].bytes_uploaded {
                    Some(bytes) => bytes,
                    None => 0,
                };
                (self.state.active[pos].session_url.clone(), bytes)
            },
            None => (None, 0),
        }
    }

    /// The events that a new subscriber is sent at once: one for every
    /// running upload whose byte count is known, in the order of the
    /// queue, without a rate.
    pub fn subscribe_progress(&self) -> (burst: Vec<UploadProgressUpdate>)
        ensures
            events_view(burst@) == announcements(self.queue().active),
            forall|i: int| 0 <= i < burst.len() ==> (#[trigger] burst[i]).speed is Unchanged,
    {
        let ghost all = self.state.active.deep_view();
        let mut burst: Vec<UploadProgressUpdate> = Vec::new();
        let mut i: usize = 0;
        proof {
            reveal_with_fuel(Seq::filter, 1);
            assert(all.take(0) =~= Seq::<UploadTaskView>::empty());
            assert(events_view(burst@) =~= announcements(all.take(0)));
        }
        while i < self.state.active.len()
            invariant
                i <= self.state.active.len(),
                all == self.state.active.deep_view(),
                events_view(burst@) == announcements(all.take(i as int)),
                forall|j: int| 0 <= j < burst.len() ==> (#[trigger] burst[j]).speed is Unchanged,
            decreases self.state.active.len() - i,
        {
            let ghost before = events_view(burst@);
            proof {
                assert(all.take(i + 1) =~= all.take(i as int).push(all[i as int]));
                lemma_filter_push_step(all.take(i as int), all[i as int], announced());
                assert(all[i as int] == self.state.active@[i as int]@);
            }
            if let Some(bytes) = self.state.active[i].bytes_uploaded {
                burst.push(
                    UploadProgressUpdate {
                        task_id: self.state.active[i].task_id.clone(),
                        bytes_uploaded: bytes,
                        expected_size: self.state.active[i].size,
                        speed: RateReading::Unchanged,
                        timestamp_millis: current_timestamp(),
                    },
                );
                proof {
                    assert(events_view(burst@) =~= before.push(announcement(all[i as int])));
                    assert(all.take(i as int).filter(announced()).push(all[i as int]).map_values(
                        |t: UploadTaskView| announcement(t),
                    ) =~= before.push(announcement(all[i as int])));
                }
            }
            i += 1;
        }
        proof {
            assert(all.take(i as int) =~= all);
        }
        burst
    }

    /// The ticket of the stop flag registered for the upload `task_id`;
    /// the worker of the upload polls with it.
    pub fn cancel_ticket(&self, task_id: &str) -> (r: Option<u64>)
        ensures
            r is Some == self.registry().is_registered(task_id@),
            r is Some ==> r->0 == self.registry().tokens[self.registry().position(task_id@)].ticket,
    {
        self.cancel_tokens.ticket_of(task_id)
    }

    /// Whether the worker that holds `ticket` for the upload `task_id` has
    /// to stop.
    pub fn should_stop(&self, task_id: &str, ticket: u64) -> (r: bool)
        ensures
            r == self.registry().must_stop(task_id@, ticket),
    {
        self.cancel_tokens.must_stop(task_id, ticket)
    }

    /// Takes a permit for a worker if one is free.
    pub fn try_acquire_permit(&mut self) -> (granted: bool)
        ensures
            final(self).wf() == old(self).wf(),
            final(self).queue() == old(self).queue(),
            final(self).registry() == old(self).registry(),
            final(self).payload_limit() == old(self).payload_limit(),
            Self::gauges_kept(*old(self), *final(self)),
            final(self).issued() == old(self).issued(),
            final(self).permits() == old(self).permits().after(PermitEvent::Acquire),
            granted == (old(self).permits().held < old(self).permits().limit),
    {
        self.limiter.acquire()
    }

    /// Gives the permit of a worker back.
    pub fn release_permit(&mut self)
        ensures
            final(self).wf() == old(self).wf(),
            final(self).queue() == old(self).queue(),
            final(self).registry() == old(self).registry(),
            final(self).payload_limit() == old(self).payload_limit(),
            Self::gauges_kept(*old(self), *final(self)),
            final(self).issued() == old(self).issued(),
            final(self).permits() == old(self).permits().after(PermitEvent::Release),
    {
        self.limiter.release()
    }

    /// Hands the requests to the store, in order, and keeps them as the
    /// record of this operation.
    fn hand_over(&mut self, requests: Vec<StoreCall<UploadTask>>)
        ensures
            final(self).issued == requests,
            final(self).state == old(self).state,
            final(self).cancel_tokens == old(self).cancel_tokens,
            final(self).limiter == old(self).limiter,
            final(self).small_upload_limit == old(self).small_upload_limit,
            final(self).persist_markers == old(self).persist_markers,
            final(self).progress_meters == old(self).progress_meters,
    {
        let mut i: usize = 0;
        while i < requests.len()
            invariant
                i <= requests.len(),
                self.state == old(self).state,
                self.cancel_tokens == old(self).cancel_tokens,
                self.limiter == old(self).limiter,
                self.small_upload_limit == old(self).small_upload_limit,
                self.persist_markers == old(self).persist_markers,
                self.progress_meters == old(self).progress_meters,
            decreases requests.len() - i,
        {
            match &requests[i] {
                StoreCall::Upsert(task) => self.store.upsert(task),
                StoreCall::Remove(key) => self.store.remove(key.as_str()),
                StoreCall::ClearHistory => self.store.clear_history(),
            }
            i += 1;
        }
        self.issued = requests;
    }

    /// Asks the store to write the final record of a task, forgets its
    /// window, its throttle mark and its stop flag and builds its last
    /// progress event.
    fn settle(&mut self, task_id: &str, task: &UploadTask, now: i64) -> (update:
        UploadProgressUpdate)
        ensures
            final(self).state == old(self).state,
            final(self).limiter == old(self).limiter,
            final(self).small_upload_limit == old(self).small_upload_limit,
            final(self).cancel_tokens@ == old(self).cancel_tokens@.after_clear(task_id@),
            old(self).cancel_tokens.wf() ==> final(self).cancel_tokens.wf(),
            final(self).persist_markers@ == without_key(old(self).persist_markers@, task_id@),
            old(self).persist_markers.wf() ==> final(self).persist_markers.wf(),
            final(self).progress_meters@ == without_key(old(self).progress_meters@, task_id@),
            old(self).progress_meters.wf() ==> final(self).progress_meters.wf(),
            final(self).issued.deep_view() == seq![StoreRequest::Upsert(task@)],
            last_event(update, task_id@, task@),
            update.speed is Unchanged,
            update.timestamp_millis == now,
    {
        self.hand_over(one_call(StoreCall::Upsert(task.clone())));
        self.progress_meters.forget(task_id);
        self.persist_markers.forget(task_id);
        self.cancel_tokens.clear(task_id);
        UploadProgressUpdate {
            task_id: owned(task_id),
            bytes_uploaded: match task.bytes_uploaded {
                Some(bytes) => bytes,
                None => 0,
            },
            expected_size: task.size,
            speed: RateReading::Unchanged,
            timestamp_millis: now,
        }
    }

    /// The ids of the running uploads.
    fn active_ids(&self) -> (ids: Vec<String>)
        ensures
            ids.deep_view() == keys_of(self.state@.active),
    {
        let mut ids: Vec<String> = Vec::new();
        let mut i: usize = 0;
        while i < self.state.active.len()
            invariant
                i <= self.state.active.len(),
                ids.deep_view() == keys_of(self.state.active.deep_view().take(i as int)),
            decreases self.state.active.len() - i,
        {
            let ghost before = ids.deep_view();
            let id = self.state.active[i].task_id.clone();
            ids.push(id);
            proof {
                let all = self.state.active.deep_view();
                assert(all[i as int].task_id == id@);
                assert(ids.deep_view() =~= before.push(id@));
                assert(all.take(i + 1) =~= all.take(i as int).push(all[i as int]));
                assert(keys_of(all.take(i + 1)) =~= keys_of(all.take(i as int)).push(id@));
            }
            i += 1;
        }
        proof {
            let all = self.state.active.deep_view();
            assert(all.take(i as int) =~= all);
        }
        ids
    }
}

/// What an event tells of a task: its id, the bytes sent and the size.
pub open spec fn announcement(t: UploadTaskView) -> (Seq<char>, u64, Option<u64>) {
    (
        t.task_id,
        match t.bytes_uploaded {
            Some(bytes) => bytes,
            None => 0,
        },
        t.size,
    )
}

/// The predicate "has a known byte count".
pub open spec fn announced() -> spec_fn(UploadTaskView) -> bool {
    |t: UploadTaskView| t.bytes_uploaded is Some
}

/// What a new subscriber is told of the running tasks: something of every
/// task whose byte count is known, in order.
pub open spec fn announcements(active: Seq<UploadTaskView>) -> Seq<
    (Seq<char>, u64, Option<u64>),
> {
    active.filter(announced()).map_values(|t: UploadTaskView| announcement(t))
}

/// What a list of events tells, event by event.
pub open spec fn events_view(events: Seq<UploadProgressUpdate>) -> Seq<
    (Seq<char>, u64, Option<u64>),
> {
    Seq::new(
        events.len(),
        |i: int| (events[i].task_id@, events[i].bytes_uploaded, events[i].expected_size),
    )
}

/// The last event of a task reports the bytes and the size of its final
/// record.
pub open spec fn last_event(update: UploadProgressUpdate, id: Seq<char>, task: UploadTaskView)
    -> bool {
    &&& update.task_id@ == id
    &&& update.bytes_uploaded == match task.bytes_uploaded {
        Some(bytes) => bytes,
        None => 0,
    }
    &&& update.expected_size == task.size
}

/// The queue of the manager.
pub fn upload_queue_state<S: UploadStore>(manager: &UploadManager<S>) -> (s: UploadQueueState)
    ensures
        s@ == manager.queue(),
{
    manager.snapshot()
}

/// Accepts a small file; see [`UploadManager::enqueue_small_file`].
pub fn enqueue_upload_task<S: UploadStore>(
    manager: &mut UploadManager<S>,
    parent_id: Option<String>,
    file_name: String,
    local_path: String,
    content: &Vec<u8>,
    overwrite: bool,
) -> (r: Result<UploadQueueState, String>)
    requires
        old(manager).wf(),
    ensures
        final(manager).wf(),
        match input_rejection(
            file_name@,
            local_path@,
            content@.len(),
            Some(old(manager).payload_limit()),
        ) {
            Some(e) => UploadManager::refused(*old(manager), *final(manager), r, e),
            None => exists|id: Seq<char>, now: i64|
                {
                    &&& id.len() == 36
                    &&& #[trigger] UploadManager::enqueued_as(
                        *old(manager),
                        *final(manager),
                        r,
                        fresh_upload(
                            id,
                            opt_view(parent_id),
                            file_name@,
                            local_path@,
                            content@.len() as u64,
                            now,
                        ),
                    )
                },
        },
        target_busy(old(manager).queue(), file_name@, opt_view(parent_id)) ==> r is Err,
{
    manager.enqueue_small_file(parent_id, file_name, local_path, content, overwrite)
}

/// Accepts a large file; see [`UploadManager::enqueue_large_file`].
pub fn enqueue_large_upload_task<S: UploadStore>(
    manager: &mut UploadManager<S>,
    parent_id: Option<String>,
    file_name: String,
    local_path: String,
    total_size: u64,
    overwrite: bool,
) -> (r: Result<UploadQueueState, String>)
    requires
        old(manager).wf(),
    ensures
        final(manager).wf(),
        match input_rejection(file_name@, local_path@, total_size as nat, None) {
            Some(e) => UploadManager::refused(*old(manager), *final(manager), r, e),
            None => exists|id: Seq<char>, now: i64|
                {
                    &&& id.len() == 36
                    &&& #[trigger] UploadManager::enqueued_as(
                        *old(manager),
                        *final(manager),
                        r,
                        fresh_upload(
                            id,
                            opt_view(parent_id),
                            file_name@,
                            local_path@,
                            total_size,
                            now,
                        ),
                    )
                },
        },
        target_busy(old(manager).queue(), file_name@, opt_view(parent_id)) ==> r is Err,
{
    manager.enqueue_large_file(parent_id, file_name, local_path, total_size, overwrite)
}

/// Removes an upload; see [`UploadManager::remove`].
pub fn remove_upload_task<S: UploadStore>(manager: &mut UploadManager<S>, task_id: &str) -> (r:
    Result<UploadQueueState, String>)
    requires
        old(manager).wf(),
    ensures
        final(manager).wf(),
        UploadManager::limits_kept(*old(manager), *final(manager)),
        r is Ok,
        r->Ok_0@ == final(manager).queue(),
        final(manager).queue() == after_remove(old(manager).queue(), task_id@),
        final(manager).registry() == old(manager).registry().after_signal(task_id@).after_clear(
            task_id@,
        ),
        final(manager).throttle() == without_key(old(manager).throttle(), task_id@),
        final(manager).windows() == without_key(old(manager).windows(), task_id@),
        final(manager).issued() == seq![StoreRequest::<UploadTaskView>::Remove(task_id@)],
{
    manager.remove(task_id)
}

/// Asks an upload to stop; see [`UploadManager::cancel`].
pub fn cancel_upload_task<S: UploadStore>(manager: &mut UploadManager<S>, task_id: &str) -> (r:
    Result<UploadQueueState, String>)
    requires
        old(manager).wf(),
    ensures
        final(manager).wf(),
        UploadManager::limits_kept(*old(manager), *final(manager)),
        UploadManager::gauges_kept(*old(manager), *final(manager)),
        final(manager).queue() == old(manager).queue(),
        final(manager).issued() == Seq::<StoreRequest<UploadTaskView>>::empty(),
        final(manager).registry() == old(manager).registry().after_signal(task_id@),
        r is Ok == old(manager).registry().is_registered(task_id@),
        r is Ok ==> r->Ok_0@ == final(manager).queue(),
        r is Err ==> r->Err_0@ == upload_error_text(QueueError::NotFound),
{
    manager.cancel(task_id)
}

/// Drops the failed uploads; see [`UploadManager::clear_failed_tasks`].
pub fn clear_failed_upload_tasks<S: UploadStore>(manager: &mut UploadManager<S>) -> (r: Result<
    UploadQueueState,
    String,
>)
    requires
        old(manager).wf(),
    ensures
        final(manager).wf(),
        UploadManager::limits_kept(*old(manager), *final(manager)),
        UploadManager::gauges_kept(*old(manager), *final(manager)),
        final(manager).registry() == old(manager).registry(),
        r is Ok,
        r->Ok_0@ == final(manager).queue(),
        final(manager).queue() == after_clear_failed(old(manager).queue()),
        final(manager).issued() == removals::<UploadTaskView>(
            keys_of(old(manager).queue().failed),
        ),
{
    manager.clear_failed_tasks()
}

/// Empties the history; see [`UploadManager::clear_history`].
pub fn clear_upload_history<S: UploadStore>(manager: &mut UploadManager<S>) -> (r: Result<
    UploadQueueState,
    String,
>)
    requires
        old(manager).wf(),
    ensures
        final(manager).wf(),
        UploadManager::limits_kept(*old(manager), *final(manager)),
        final(manager).registry() == old(manager).registry(),
        r is Ok,
        r->Ok_0@ == final(manager).queue(),
        final(manager).queue() == after_clear_history(old(manager).queue()),
        final(manager).throttle() == old(manager).throttle().filter(
            listed(keys_of(old(manager).queue().active)),
        ),
        final(manager).windows() == old(manager).windows().filter(
            window_listed(keys_of(old(manager).queue().active)),
        ),
        final(manager).issued() == seq![StoreRequest::<UploadTaskView>::ClearHistory],
{
    manager.clear_history()
}

} // verus!
