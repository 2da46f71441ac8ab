//! The download manager: the queue together with its store, its
//! cancellation registry, its rate meters and its concurrency limit.

use vstd::prelude::*;

use std::time::Instant;

use crate::cancel::{CancelRegistry, RegistryView};
use crate::clock::{current_timestamp, monotonic_now, nanos_since};
use crate::download_manager::queue::{
    active_position, after_clear_failed, after_clear_history, after_enqueue, after_failure,
    after_progress, after_remove, after_success, enqueue_rejection, fresh_download, is_active,
    progressed, takes_tick,
};
use crate::download_manager::restore::{
    lemma_restart_leaves_nothing_running, restore, restored, rewritten,
};
use crate::download_manager::storage::{upsert_calls, DownloadStore};
use crate::errors::{download_error_message, download_error_text, QueueError};
use crate::limiter::{PermitEvent, Permits, Semaphore, DEFAULT_DOWNLOAD_PERMITS};
use crate::models::{
    DownloadQueueState, DownloadTask, DownloadTaskView, DriveDownloadResult, DriveItemSummary,
    DriveItemSummaryView, QueueView,
};
use crate::meters::{
    decision, download_rate, listed, throttled_at, DownloadMeters, MarkView, PersistThrottle,
};
use crate::progress::RateSample;
use crate::queue_model::{
    keys_of, lemma_filter_push_step, no_calls, one_call, push_removals, removals, upserts,
    without_key, StoreCall, StoreRequest,
};
use crate::task_sets::{find, renewed};
use crate::text::owned;

verus! {

/// The text with which a download ends that was asked to stop.
pub const CANCELLED_DOWNLOAD_MESSAGE: &'static str = "download cancelled";

/// One progress event of a download. The rate is handed on as the sample
/// it was measured by.
#[derive(Debug)]
pub struct DownloadProgressUpdate {
    pub item_id: String,
    pub bytes_downloaded: u64,
    pub expected_size: Option<u64>,
    pub speed: Option<RateSample>,
    pub timestamp_millis: i64,
}

/// Schedules downloads: keeps the queue, mirrors it into the store, and
/// holds the stop flags and the permits of the workers.
pub struct DownloadManager<S: DownloadStore> {
    state: DownloadQueueState,
    store: S,
    progress_meters: DownloadMeters,
    persist_markers: PersistThrottle,
    cancel_tokens: CancelRegistry,
    limiter: Semaphore,
    epoch: Instant,
    issued: Vec<StoreCall<DownloadTask>>,
}

impl<S: DownloadStore> DownloadManager<S> {
    /// The queue as a value.
    pub closed spec fn queue(&self) -> QueueView<DownloadTaskView> {
        self.state@
    }

    /// The cancellation registry as a value.
    pub closed spec fn registry(&self) -> RegistryView {
        self.cancel_tokens@
    }

    /// The permits as a value.
    pub closed spec fn permits(&self) -> Permits {
        self.limiter.permits()
    }

    /// The readings of the download rates: the byte count read last of
    /// each download, and the time of reading.
    pub closed spec fn meters(&self) -> Seq<MarkView> {
        self.progress_meters@
    }

    /// What was stored last of the progress of each download, and when.
    pub closed spec fn throttle(&self) -> Seq<MarkView> {
        self.persist_markers@
    }

    /// The store behind the queue, as a value.
    pub closed spec fn stored(&self) -> S {
        self.store
    }

    /// What the last operation on the queue asked of the store, in order.
    /// The operations on the permits and the limits are no such operation.
    pub closed spec fn issued(&self) -> Seq<StoreRequest<DownloadTaskView>> {
        self.issued.deep_view()
    }

    /// The invariant of the manager: queue and registry are well formed,
    /// and no download has two meters or two throttle marks.
    pub closed spec fn wf(&self) -> bool {
        &&& self.state.wf()
        &&& self.cancel_tokens.wf()
        &&& self.progress_meters.wf()
        &&& self.persist_markers.wf()
    }

    /// What [`Self::wf`] says.
    pub proof fn lemma_wf_queue(&self)
        requires
            self.wf(),
        ensures
            crate::download_manager::queue::well_formed(self.queue()),
            self.registry().well_formed(),
            crate::task_sets::unique_keys(self.meters()),
            crate::task_sets::unique_keys(self.throttle()),
    {
    }

    /// What a restart at time `now` over the rows `rows` leaves: the queue
    /// rebuilt from the rows, and the store asked to write every row that
    /// the restart rewrote.
    pub open spec fn restarted_at(m: Self, rows: Seq<DownloadTaskView>, now: i64) -> bool {
        &&& m.queue() == restored(rows, now)
        &&& m.issued() == upserts(rewritten(rows, now))
    }

    /// Builds a manager over `store` as of the current time; see
    /// [`Self::new_at`].
    pub fn new(store: S) -> (m: Self)
        ensures
            m.wf(),
            exists|rows: Seq<DownloadTaskView>, now: i64|
                #[trigger] Self::restarted_at(m, rows, now),
            m.queue().active.len() == 0,
            m.registry().tokens.len() == 0,
            m.meters().len() == 0,
            m.throttle().len() == 0,
            m.permits() == (Permits { limit: DEFAULT_DOWNLOAD_PERMITS as nat, held: 0 }),
    {
        Self::new_at(store, current_timestamp())
    }

    /// Builds a manager over `store` and rebuilds the queue from the rows
    /// that the store holds, as of time `now`; see [`Self::from_rows`].
    pub fn new_at(store: S, now: i64) -> (m: Self)
        ensures
            m.wf(),
            exists|rows: Seq<DownloadTaskView>|
                #[trigger] Self::restarted_at(m, rows, now),
            m.queue().active.len() == 0,
            m.registry().tokens.len() == 0,
            m.meters().len() == 0,
            m.throttle().len() == 0,
            m.permits() == (Permits { limit: DEFAULT_DOWNLOAD_PERMITS as nat, held: 0 }),
    {
        let mut store = store;
        let rows = store.load();
        let m = Self::from_rows(store, &rows, now);
        proof {
            assert(Self::restarted_at(m, rows.deep_view(), now));
        }
        m
    }

    /// Builds a manager over `store` from the rows that were loaded from
    /// it, as of time `now`: unfinished downloads are filed as failed, and
    /// the store is asked to write each of them, before the queue can be
    /// observed. No download is running afterwards.
    pub fn from_rows(store: S, rows: &Vec<DownloadTask>, now: i64) -> (m: Self)
        ensures
            m.wf(),
            Self::restarted_at(m, rows.deep_view(), now),
            m.queue().active.len() == 0,
            m.registry().tokens.len() == 0,
            m.meters().len() == 0,
            m.throttle().len() == 0,
            m.permits() == (Permits { limit: DEFAULT_DOWNLOAD_PERMITS as nat, held: 0 }),
    {
        let restart = restore(rows, now);
        let requests = upsert_calls(&restart.rewritten);
        proof {
            lemma_restart_leaves_nothing_running(rows.deep_view(), now);
        }
        let mut m = DownloadManager {
            state: restart.state,
            store,
            progress_meters: DownloadMeters::new(),
            persist_markers: PersistThrottle::new(),
            cancel_tokens: CancelRegistry::new(),
            limiter: Semaphore::new(DEFAULT_DOWNLOAD_PERMITS),
            epoch: monotonic_now(),
            issued: Vec::new(),
        };
        m.hand_over(requests);
        m
    }

    /// The store behind the queue.
    pub fn store(&self) -> (s: &S)
        ensures
            *s == self.stored(),
    {
        &self.store
    }

    /// What the last operation on the queue asked of the store.
    pub fn last_requests(&self) -> (calls: &Vec<StoreCall<DownloadTask>>)
        ensures
            calls.deep_view() == self.issued(),
    {
        &self.issued
    }

    /// A copy of the queue.
    pub fn snapshot(&self) -> (s: DownloadQueueState)
        ensures
            s@ == self.queue(),
    {
        self.state.clone()
    }

    /// What [`Self::enqueue_at`] does. A download that is refused changes
    /// nothing and asks nothing of the store. One that is accepted is filed
    /// as the youngest running task, the store is asked to write it, and
    /// its stop flag is registered.
    pub open spec fn enqueued_at(
        before: Self,
        after: Self,
        item: DriveItemSummaryView,
        target: Seq<char>,
        r: Result<DownloadQueueState, String>,
        now: i64,
    ) -> bool {
        &&& after.permits() == before.permits()
        &&& after.meters() == before.meters()
        &&& after.throttle() == before.throttle()
        &&& match enqueue_rejection(before.queue(), item.id, target) {
            Some(e) => {
                &&& r is Err
                &&& r->Err_0@ == download_error_text(e)
                &&& after.queue() == before.queue()
                &&& after.registry() == before.registry()
                &&& after.issued() == Seq::<StoreRequest<DownloadTaskView>>::empty()
            },
            None => {
                &&& r is Ok
                &&& r->Ok_0@ == after.queue()
                &&& after.queue() == after_enqueue(before.queue(), fresh_download(item, now))
                &&& after.registry() == before.registry().after_register(item.id)
                &&& after.issued() == seq![StoreRequest::Upsert(fresh_download(item, now))]
            },
        }
    }

    /// Accepts the download of `item` into `target_dir` at time `now`, or
    /// refuses it; see [`Self::enqueued_at`]. Whether an existing file may
    /// be overwritten concerns the worker alone.
    pub fn enqueue_at(
        &mut self,
        item: DriveItemSummary,
        target_dir: String,
        overwrite: bool,
        now: i64,
    ) -> (r: Result<DownloadQueueState, String>)
        requires
            old(self).wf(),
        ensures
            final(self).wf(),
            Self::enqueued_at(*old(self), *final(self), item@, target_dir@, r, now),
    {
        let id = item.id.clone();
        match self.state.enqueue(item, target_dir.as_str(), now) {
            Err(e) => {
                self.hand_over(no_calls());
                Err(download_error_message(e))
            },
            Ok(task) => {
                self.hand_over(one_call(StoreCall::Upsert(task)));
                let _ = self.cancel_tokens.register(id.as_str());
                Ok(self.state.clone())
            },
        }
    }

    /// Accepts the download of `item` into `target_dir` as of the current
    /// time; see [`Self::enqueue_at`].
    pub fn enqueue(&mut self, item: DriveItemSummary, target_dir: String, overwrite: bool) -> (r:
        Result<DownloadQueueState, String>)
        requires
            old(self).wf(),
        ensures
            final(self).wf(),
            exists|now: i64|
                #[trigger] Self::enqueued_at(*old(self), *final(self), item@, target_dir@, r, now),
    {
        let now = current_timestamp();
        let ghost view = item@;
        let ghost target = target_dir@;
        let r = self.enqueue_at(item, target_dir, overwrite, now);
        proof {
            assert(Self::enqueued_at(*old(self), *self, view, target, r, now));
        }
        r
    }

    /// Takes the download of item `item_id` out of the queue, whatever its
    /// state, and asks the store to delete its row. A running worker is
    /// told to stop first; it finds its flag gone and stops.
    pub fn remove(&mut self, item_id: &str) -> (r: Result<DownloadQueueState, String>)
        requires
            old(self).wf(),
        ensures
            final(self).wf(),
            final(self).permits() == old(self).permits(),
            r is Ok,
            r->Ok_0@ == final(self).queue(),
            final(self).queue() == after_remove(old(self).queue(), item_id@),
            final(self).registry() == old(self).registry().after_signal(item_id@).after_clear(
                item_id@,
            ),
            final(self).meters() == without_key(old(self).meters(), item_id@),
            final(self).throttle() == without_key(old(self).throttle(), item_id@),
            final(self).issued() == seq![StoreRequest::<DownloadTaskView>::Remove(item_id@)],
    {
        let _ = self.cancel_tokens.signal(item_id);
        self.state.remove(item_id);
        self.hand_over(one_call(StoreCall::Remove(owned(item_id))));
        self.progress_meters.forget(item_id);
        self.persist_markers.forget(item_id);
        self.cancel_tokens.clear(item_id);
        Ok(self.state.clone())
    }

    /// Empties the history in the queue and asks the store to delete the
    /// rows of the finished downloads; running downloads stay.
    pub fn clear_history(&mut self) -> (r: Result<DownloadQueueState, String>)
        requires
            old(self).wf(),
        ensures
            final(self).wf(),
            final(self).permits() == old(self).permits(),
            final(self).registry() == old(self).registry(),
            r is Ok,
            r->Ok_0@ == final(self).queue(),
            final(self).queue() == after_clear_history(old(self).queue()),
            final(self).meters() == old(self).meters().filter(
                listed(keys_of(old(self).queue().active)),
            ),
            final(self).throttle() == old(self).throttle().filter(
                listed(keys_of(old(self).queue().active)),
            ),
            final(self).issued() == seq![StoreRequest::<DownloadTaskView>::ClearHistory],
    {
        self.state.clear_history();
        self.hand_over(one_call(StoreCall::ClearHistory));
        let running = self.active_ids();
        self.progress_meters.retain_only(&running);
        self.persist_markers.retain_only(&running);
        Ok(self.state.clone())
    }

    /// Asks the running download of item `item_id` to stop. The queue does
    /// not change and the store is not asked anything: the worker files
    /// the task once it has stopped. Fails when no stop flag is registered
    /// for the item.
    pub fn cancel(&mut self, item_id: &str) -> (r: Result<DownloadQueueState, String>)
        requires
            old(self).wf(),
        ensures
            final(self).wf(),
            final(self).permits() == old(self).permits(),
            final(self).queue() == old(self).queue(),
            final(self).meters() == old(self).meters(),
            final(self).throttle() == old(self).throttle(),
            final(self).issued() == Seq::<StoreRequest<DownloadTaskView>>::empty(),
            final(self).registry() == old(self).registry().after_signal(item_id@),
            r is Ok == old(self).registry().is_registered(item_id@),
            r is Ok ==> r->Ok_0@ == final(self).queue(),
            r is Err ==> r->Err_0@ == download_error_text(QueueError::NotFound),
    {
        self.hand_over(no_calls());
        if self.cancel_tokens.signal(item_id) {
            Ok(self.state.clone())
        } else {
            Err(download_error_message(QueueError::NotFound))
        }
    }

    /// Drops the failed downloads from the queue and asks the store to
    /// delete the row of each of them, in the order of the queue.
    pub fn clear_failed_tasks(&mut self) -> (r: Result<DownloadQueueState, String>)
        requires
            old(self).wf(),
        ensures
            final(self).wf(),
            final(self).permits() == old(self).permits(),
            final(self).registry() == old(self).registry(),
            final(self).meters() == old(self).meters(),
            final(self).throttle() == old(self).throttle(),
            r is Ok,
            r->Ok_0@ == final(self).queue(),
            final(self).queue() == after_clear_failed(old(self).queue()),
            final(self).issued() == removals::<DownloadTaskView>(
                keys_of(old(self).queue().failed),
            ),
    {
        let ids = self.state.clear_failed();
        let mut requests = no_calls();
        push_removals(&mut requests, &ids);
        proof {
            assert(Seq::<StoreRequest<DownloadTaskView>>::empty() + removals::<DownloadTaskView>(
                ids.deep_view(),
            ) =~= removals::<DownloadTaskView>(ids.deep_view()));
        }
        self.hand_over(requests);
        Ok(self.state.clone())
    }

    /// What the terminal transition of the download `id` does beside the
    /// queue, where `task` is the record as it was filed: if the download
    /// was running, its stop flag, its meter and its throttle mark are
    /// gone and the store was asked to write the record; if not, nothing
    /// has changed and the store was not asked anything.
    pub open spec fn settled(
        before: Self,
        after: Self,
        id: Seq<char>,
        task: DownloadTaskView,
    ) -> bool {
        &&& after.permits() == before.permits()
        &&& if is_active(before.queue(), id) {
            &&& after.registry() == before.registry().after_clear(id)
            &&& after.meters() == without_key(before.meters(), id)
            &&& after.throttle() == without_key(before.throttle(), id)
            &&& after.issued() == seq![StoreRequest::Upsert(task)]
        } else {
            &&& after.registry() == before.registry()
            &&& after.meters() == before.meters()
            &&& after.throttle() == before.throttle()
            &&& after.issued() == Seq::<StoreRequest<DownloadTaskView>>::empty()
        }
    }

    /// What [`Self::mark_success_at`] does: the running download is filed
    /// as completed, and its last event reports the bytes of the result,
    /// without a rate.
    pub open spec fn succeeded_at(
        before: Self,
        after: Self,
        id: Seq<char>,
        result: DriveDownloadResult,
        r: Option<DownloadProgressUpdate>,
        now: i64,
    ) -> bool {
        &&& after.queue() == after_success(
            before.queue(),
            id,
            result.saved_path@,
            result.bytes_downloaded,
            result.expected_size,
            now,
        )
        &&& r is Some == is_active(before.queue(), id)
        &&& Self::settled(before, after, id, after.queue().completed[0])
        &&& r is Some ==> {
            &&& r->0.item_id@ == id
            &&& r->0.bytes_downloaded == result.bytes_downloaded
            &&& r->0.expected_size == after.queue().completed[0].size_label
            &&& r->0.speed is None
            &&& r->0.timestamp_millis == now
        }
    }

    /// What [`Self::mark_failure_at`] does: the running download is filed
    /// as failed, and its last event reports the bytes recorded last,
    /// without a rate. When the download is not running, a stale failure
    /// of the item is dropped from the queue.
    pub open spec fn failed_at(
        before: Self,
        after: Self,
        id: Seq<char>,
        message: Seq<char>,
        r: Option<DownloadProgressUpdate>,
        now: i64,
    ) -> bool {
        &&& after.queue() == after_failure(before.queue(), id, message, now)
        &&& r is Some == is_active(before.queue(), id)
        &&& Self::settled(before, after, id, after.queue().failed[0])
        &&& r is Some ==> {
            &&& r->0.item_id@ == id
            &&& r->0.bytes_downloaded == match after.queue().failed[0].bytes_downloaded {
                Some(bytes) => bytes,
                None => 0,
            }
            &&& r->0.expected_size == after.queue().failed[0].size_label
            &&& r->0.speed is None
            &&& r->0.timestamp_millis == now
        }
    }

    /// What [`Self::complete_at`] does: a result counts as success, an
    /// error text as failure.
    pub open spec fn completed_at(
        before: Self,
        after: Self,
        id: Seq<char>,
        outcome: Result<DriveDownloadResult, String>,
        r: Option<DownloadProgressUpdate>,
        now: i64,
    ) -> bool {
        match outcome {
            Ok(result) => Self::succeeded_at(before, after, id, result, r, now),
            Err(text) => Self::failed_at(before, after, id, text@, r, now),
        }
    }

    /// Files the running download of item `item_id` as completed at time
    /// `now`; see [`Self::succeeded_at`]. Nothing happens when the
    /// download is not running.
    pub fn mark_success_at(&mut self, item_id: &str, result: DriveDownloadResult, now: i64) -> (r:
        Option<DownloadProgressUpdate>)
        requires
            old(self).wf(),
        ensures
            final(self).wf(),
            Self::succeeded_at(*old(self), *final(self), item_id@, result, r, now),
    {
        match self.state.mark_success(item_id, &result, now) {
            Some(task) => Some(self.settle(item_id, &task, result.bytes_downloaded, now)),
            None => {
                self.hand_over(no_calls());
                None
            },
        }
    }

    /// Files the running download of item `item_id` as failed with
    /// `message` at time `now`; see [`Self::failed_at`].
    pub fn mark_failure_at(&mut self, item_id: &str, message: String, now: i64) -> (r: Option<
        DownloadProgressUpdate,
    >)
        requires
            old(self).wf(),
        ensures
            final(self).wf(),
            Self::failed_at(*old(self), *final(self), item_id@, message@, r, now),
    {
        match self.state.mark_failure(item_id, message, now) {
            Some(task) => {
                let bytes = match task.bytes_downloaded {
                    Some(bytes) => bytes,
                    None => 0,
                };
                Some(self.settle(item_id, &task, bytes, now))
            },
            None => {
                self.hand_over(no_calls());
                None
            },
        }
    }

    /// Files the download of item `item_id` according to what its worker
    /// returned, at time `now`; see [`Self::completed_at`]. A download
    /// that was asked to stop ends as a failure with the text of its
    /// worker.
    pub fn complete_at(
        &mut self,
        item_id: &str,
        outcome: Result<DriveDownloadResult, String>,
        now: i64,
    ) -> (r: Option<DownloadProgressUpdate>)
        requires
            old(self).wf(),
        ensures
            final(self).wf(),
            Self::completed_at(*old(self), *final(self), item_id@, outcome, r, now),
    {
        match outcome {
            Ok(result) => self.mark_success_at(item_id, result, now),
            Err(text) => self.mark_failure_at(item_id, text, now),
        }
    }

    /// Files the download of item `item_id` according to what its worker
    /// returned, as of the current time; see [`Self::complete_at`].
    pub fn complete(&mut self, item_id: &str, outcome: Result<DriveDownloadResult, String>) -> (r:
        Option<DownloadProgressUpdate>)
        requires
            old(self).wf(),
        ensures
            final(self).wf(),
            exists|now: i64|
                #[trigger] Self::completed_at(*old(self), *final(self), item_id@, outcome, r, now),
    {
        let now = current_timestamp();
        let ghost returned = outcome;
        let r = self.complete_at(item_id, outcome, now);
        proof {
            assert(Self::completed_at(*old(self), *self, item_id@, returned, r, now));
        }
        r
    }

    /// Files the running download of item `item_id` as completed, as of
    /// the current time; see [`Self::mark_success_at`].
    pub fn mark_success(&mut self, item_id: &str, result: DriveDownloadResult) -> (r: Option<
        DownloadProgressUpdate,
    >)
        requires
            old(self).wf(),
        ensures
            final(self).wf(),
            exists|now: i64|
                #[trigger] Self::succeeded_at(*old(self), *final(self), item_id@, result, r, now),
    {
        let now = current_timestamp();
        let ghost done = result;
        let r = self.mark_success_at(item_id, result, now);
        proof {
            assert(Self::succeeded_at(*old(self), *self, item_id@, done, r, now));
        }
        r
    }

    /// Files the running download of item `item_id` as failed, as of the
    /// current time; see [`Self::mark_failure_at`].
    pub fn mark_failure(&mut self, item_id: &str, message: String) -> (r: Option<
        DownloadProgressUpdate,
    >)
        requires
            old(self).wf(),
        ensures
            final(self).wf(),
            exists|now: i64|
                #[trigger] Self::failed_at(*old(self), *final(self), item_id@, message@, r, now),
    {
        let now = current_timestamp();
        let ghost text = message@;
        let r = self.mark_failure_at(item_id, message, now);
        proof {
            assert(Self::failed_at(*old(self), *self, item_id@, text, r, now));
        }
        r
    }

    /// What [`Self::report_progress_at`] does. A tick that the queue does
    /// not take changes nothing and yields no event. One that it takes is
    /// recorded in the queue; the store is asked to write the record if
    /// the throttle lets the tick through; and the event carries the bytes
    /// of the tick, the size then recorded, the rate measured since the
    /// reading before, and the time given.
    pub open spec fn ticked_at(
        before: Self,
        after: Self,
        id: Seq<char>,
        bytes: u64,
        expected: Option<u64>,
        r: Option<DownloadProgressUpdate>,
        now: u128,
        timestamp_millis: i64,
    ) -> bool {
        let task = progressed(
            before.queue().active[active_position(before.queue(), id)],
            bytes,
            expected,
        );
        let due = decision(find(before.throttle(), id), bytes, now);
        &&& after.permits() == before.permits()
        &&& after.registry() == before.registry()
        &&& after.queue() == after_progress(before.queue(), id, bytes, expected)
        &&& r is Some == takes_tick(before.queue(), id, bytes, expected)
        &&& if r is Some {
            &&& r->0.item_id@ == id
            &&& r->0.bytes_downloaded == bytes
            &&& r->0.expected_size == task.size_label
            &&& r->0.speed == download_rate(find(before.meters(), id), bytes, now)
            &&& r->0.timestamp_millis == timestamp_millis
            &&& after.meters() == renewed(before.meters(), MarkView { id, bytes, at: now })
            &&& throttled_at(before.throttle(), after.throttle(), id, bytes, due, now)
            &&& after.issued() == if due {
                seq![StoreRequest::Upsert(task)]
            } else {
                Seq::<StoreRequest<DownloadTaskView>>::empty()
            }
        } else {
            &&& after.meters() == before.meters()
            &&& after.throttle() == before.throttle()
            &&& after.issued() == Seq::<StoreRequest<DownloadTaskView>>::empty()
        }
    }

    /// Records a progress tick of the running download of item `item_id`,
    /// taken at `now` nanoseconds of the monotonic clock and at the wall
    /// time `timestamp_millis`, and returns the event to broadcast; see
    /// [`Self::ticked_at`].
    pub fn report_progress_at(
        &mut self,
        item_id: &str,
        bytes_downloaded: u64,
        expected_size: Option<u64>,
        now: u128,
        timestamp_millis: i64,
    ) -> (r: Option<DownloadProgressUpdate>)
        requires
            old(self).wf(),
        ensures
            final(self).wf(),
            Self::ticked_at(
                *old(self),
                *final(self),
                item_id@,
                bytes_downloaded,
                expected_size,
                r,
                now,
                timestamp_millis,
            ),
    {
        match self.state.report_progress(item_id, bytes_downloaded, expected_size) {
            Some(task) => {
                if self.persist_markers.should_persist_progress(item_id, bytes_downloaded, now) {
                    self.hand_over(one_call(StoreCall::Upsert(task.clone())));
                } else {
                    self.hand_over(no_calls());
                }
                let speed = self.progress_meters.compute_speed(item_id, bytes_downloaded, now);
                Some(
                    DownloadProgressUpdate {
                        item_id: owned(item_id),
                        bytes_downloaded,
                        expected_size: task.size_label,
                        speed,
                        timestamp_millis,
                    },
                )
            },
            None => {
                self.hand_over(no_calls());
                None
            },
        }
    }

    /// Records a progress tick of the running download of item `item_id`
    /// as of now; see [`Self::report_progress_at`].
    pub fn report_progress(
        &mut self,
        item_id: &str,
        bytes_downloaded: u64,
        expected_size: Option<u64>,
    ) -> (r: Option<DownloadProgressUpdate>)
        requires
            old(self).wf(),
        ensures
            final(self).wf(),
            exists|now: u128, timestamp_millis: i64|
                #[trigger] Self::ticked_at(
                    *old(self),
                    *final(self),
                    item_id@,
                    bytes_downloaded,
                    expected_size,
                    r,
                    now,
                    timestamp_millis,
                ),
    {
        let now = nanos_since(&self.epoch);
        let timestamp_millis = current_timestamp();
        let r = self.report_progress_at(
            item_id,
            bytes_downloaded,
            expected_size,
            now,
            timestamp_millis,
        );
        proof {
            assert(Self::ticked_at(
                *old(self),
                *self,
                item_id@,
                bytes_downloaded,
                expected_size,
                r,
                now,
                timestamp_millis,
            ));
        }
        r
    }

    /// The events that a new subscriber is sent at once: one for every
    /// running download whose byte count is known, in the order of the
    /// queue, without a rate.
    pub fn subscribe_progress(&self) -> (burst: Vec<DownloadProgressUpdate>)
        ensures
            events_view(burst@) == announcements(self.queue().active),
            forall|i: int| 0 <= i < burst.len() ==> (#[trigger] burst[i]).speed is None,
    {
        let ghost all = self.state.active.deep_view();
        let mut burst: Vec<DownloadProgressUpdate> = Vec::new();
        let mut i: usize = 0;
        proof {
            reveal_with_fuel(Seq::filter, 1);
            assert(all.take(0) =~= Seq::<DownloadTaskView>::empty());
            assert(events_view(burst@) =~= announcements(all.take(0)));
        }
        while i < self.state.active.len()
            invariant
                i <= self.state.active.len(),
                all == self.state.active.deep_view(),
                events_view(burst@) == announcements(all.take(i as int)),
                forall|j: int| 0 <= j < burst.len() ==> (#[trigger] burst[j]).speed is None,
            decreases self.state.active.len() - i,
        {
            let ghost before = events_view(burst@);
            proof {
                assert(all.take(i + 1) =~= all.take(i as int).push(all[i as int]));
                lemma_filter_push_step(all.take(i as int), all[i as int], announced());
                assert(all[i as int] == self.state.active@[i as int]@);
            }
            if let Some(bytes) = self.state.active[i].bytes_downloaded {
                burst.push(
                    DownloadProgressUpdate {
                        item_id: self.state.active[i].item.id.clone(),
                        bytes_downloaded: bytes,
                        expected_size: self.state.active[i].size_label,
                        speed: None,
                        timestamp_millis: current_timestamp(),
                    },
                );
                proof {
                    assert(events_view(burst@) =~= before.push(announcement(all[i as int])));
                    assert(all.take(i as int).filter(announced()).push(all[i as int]).map_values(
                        |t: DownloadTaskView| announcement(t),
                    ) =~= before.push(announcement(all[i as int])));
                }
            }
            i += 1;
        }
        proof {
            assert(all.take(i as int) =~= all);
        }
        burst
    }

    /// The ticket of the stop flag registered for item `item_id`; the
    /// worker of the download polls with it.
    pub fn cancel_ticket(&self, item_id: &str) -> (r: Option<u64>)
        ensures
            r is Some == self.registry().is_registered(item_id@),
            r is Some ==> r->0 == self.registry().tokens[self.registry().position(item_id@)].ticket,
    {
        self.cancel_tokens.ticket_of(item_id)
    }

    /// Whether the worker that holds `ticket` for item `item_id` has to
    /// stop.
    pub fn should_stop(&self, item_id: &str, ticket: u64) -> (r: bool)
        ensures
            r == self.registry().must_stop(item_id@, ticket),
    {
        self.cancel_tokens.must_stop(item_id, ticket)
    }

    /// Takes a permit for a worker if one is free.
    pub fn try_acquire_permit(&mut self) -> (granted: bool)
        ensures
            final(self).wf() == old(self).wf(),
            final(self).queue() == old(self).queue(),
            final(self).registry() == old(self).registry(),
            final(self).meters() == old(self).meters(),
            final(self).throttle() == old(self).throttle(),
            final(self).issued() == old(self).issued(),
            final(self).permits() == old(self).permits().after(PermitEvent::Acquire),
            granted == (old(self).permits().held < old(self).permits().limit),
    {
        self.limiter.acquire()
    }

    /// Gives the permit of a worker back.
    pub fn release_permit(&mut self)
        ensures
            final(self).wf() == old(self).wf(),
            final(self).queue() == old(self).queue(),
            final(self).registry() == old(self).registry(),
            final(self).meters() == old(self).meters(),
            final(self).throttle() == old(self).throttle(),
            final(self).issued() == old(self).issued(),
            final(self).permits() == old(self).permits().after(PermitEvent::Release),
    {
        self.limiter.release()
    }

    /// Sets the number of simultaneous downloads. Added permits are free
    /// at once; permits that are held stay with their holders.
    pub fn update_concurrency_limit(&mut self, limit: usize)
        ensures
            final(self).wf() == old(self).wf(),
            final(self).queue() == old(self).queue(),
            final(self).registry() == old(self).registry(),
            final(self).meters() == old(self).meters(),
            final(self).throttle() == old(self).throttle(),
            final(self).issued() == old(self).issued(),
            final(self).permits() == old(self).permits().after(PermitEvent::Resize(limit)),
    {
        self.limiter.resize(limit)
    }

    /// Hands the requests to the store, in order, and keeps them as the
    /// record of this operation.
    fn hand_over(&mut self, requests: Vec<StoreCall<DownloadTask>>)
        ensures
            final(self).issued == requests,
            final(self).state == old(self).state,
            final(self).cancel_tokens == old(self).cancel_tokens,
            final(self).limiter == old(self).limiter,
            final(self).persist_markers == old(self).persist_markers,
            final(self).progress_meters == old(self).progress_meters,
    {
        let mut i: usize = 0;
        while i < requests.len()
            invariant
                i <= requests.len(),
                self.state == old(self).state,
                self.cancel_tokens == old(self).cancel_tokens,
                self.limiter == old(self).limiter,
                self.persist_markers == old(self).persist_markers,
                self.progress_meters == old(self).progress_meters,
            decreases requests.len() - i,
        {
            match &requests[i] {
                StoreCall::Upsert(task) => self.store.upsert(task),
                StoreCall::Remove(key) => self.store.remove(key.as_str()),
                StoreCall::ClearHistory => self.store.clear_history(),
            }
            i += 1;
        }
        self.issued = requests;
    }

    /// Asks the store to write the final record of a download, forgets its
    /// meter, its throttle mark and its stop flag and builds its last
    /// progress event.
    fn settle(&mut self, item_id: &str, task: &DownloadTask, bytes: u64, now: i64) -> (update:
        DownloadProgressUpdate)
        ensures
            final(self).state == old(self).state,
            final(self).limiter == old(self).limiter,
            final(self).cancel_tokens@ == old(self).cancel_tokens@.after_clear(item_id@),
            old(self).cancel_tokens.wf() ==> final(self).cancel_tokens.wf(),
            final(self).progress_meters@ == without_key(old(self).progress_meters@, item_id@),
            old(self).progress_meters.wf() ==> final(self).progress_meters.wf(),
            final(self).persist_markers@ == without_key(old(self).persist_markers@, item_id@),
            old(self).persist_markers.wf() ==> final(self).persist_markers.wf(),
            final(self).issued.deep_view() == seq![StoreRequest::Upsert(task@)],
            update.item_id@ == item_id@,
            update.bytes_downloaded == bytes,
            update.expected_size == task.size_label,
            update.speed is None,
            update.timestamp_millis == now,
    {
        self.hand_over(one_call(StoreCall::Upsert(task.clone())));
        self.progress_meters.forget(item_id);
        self.persist_markers.forget(item_id);
        self.cancel_tokens.clear(item_id);
        DownloadProgressUpdate {
            item_id: owned(item_id),
            bytes_downloaded: bytes,
            expected_size: task.size_label,
            speed: None,
            timestamp_millis: now,
        }
    }

    /// The items of the running downloads.
    fn active_ids(&self) -> (ids: Vec<String>)
        ensures
            ids.deep_view() == keys_of(self.state@.active),
    {
        let mut ids: Vec<String> = Vec::new();
        let mut i: usize = 0;
        while i < self.state.active.len()
            invariant
                i <= self.state.active.len(),
                ids.deep_view() == keys_of(self.state.active.deep_view().take(i as int)),
            decreases self.state.active.len() - i,
        {
            let ghost before = ids.deep_view();
            let id = self.state.active[i].item.id.clone();
            ids.push(id);
            proof {
                let all = self.state.active.deep_view();
                assert(all[i as int].item.id == id@);
                assert(ids.deep_view() =~= before.push(id@));
                assert(all.take(i + 1) =~= all.take(i as int).push(all[i as int]));
                assert(keys_of(all.take(i + 1)) =~= keys_of(all.take(i as int)).push(id@));
            }
            i += 1;
        }
        proof {
            let all = self.state.active.deep_view();
            assert(all.take(i as int) =~= all);
        }
        ids
    }
}

/// What an event tells of a task: its item, the bytes received and the
/// size.
pub open spec fn announcement(t: DownloadTaskView) -> (Seq<char>, u64, Option<u64>) {
    (
        t.item.id,
        match t.bytes_downloaded {
            Some(bytes) => bytes,
            None => 0,
        },
        t.size_label,
    )
}

/// The predicate "has a known byte count".
pub open spec fn announced() -> spec_fn(DownloadTaskView) -> bool {
    |t: DownloadTaskView| t.bytes_downloaded is Some
}

/// What a new subscriber is told of the running tasks: something of every
/// task whose byte count is known, in order.
pub open spec fn announcements(active: Seq<DownloadTaskView>) -> Seq<
    (Seq<char>, u64, Option<u64>),
> {
    active.filter(announced()).map_values(|t: DownloadTaskView| announcement(t))
}

/// What a list of events tells, event by event.
pub open spec fn events_view(events: Seq<DownloadProgressUpdate>) -> Seq<
    (Seq<char>, u64, Option<u64>),
> {
    Seq::new(
        events.len(),
        |i: int| (events[i].item_id@, events[i].bytes_downloaded, events[i].expected_size),
    )
}

/// The queue of the manager.
pub fn download_queue_state<S: DownloadStore>(manager: &DownloadManager<S>) -> (s:
    DownloadQueueState)
    ensures
        s@ == manager.queue(),
{
    manager.snapshot()
}

/// Accepts a download; see [`DownloadManager::enqueue`].
pub fn enqueue_download_task<S: DownloadStore>(
    manager: &mut DownloadManager<S>,
    item: DriveItemSummary,
    target_dir: String,
    overwrite: bool,
) -> (r: Result<DownloadQueueState, String>)
    requires
        old(manager).wf(),
    ensures
        final(manager).wf(),
        exists|now: i64|
            #[trigger] DownloadManager::enqueued_at(
                *old(manager),
                *final(manager),
                item@,
                target_dir@,
                r,
                now,
            ),
{
    manager.enqueue(item, target_dir, overwrite)
}

/// Removes a download; see [`DownloadManager::remove`].
pub fn remove_download_task<S: DownloadStore>(manager: &mut DownloadManager<S>, item_id: &str)
    -> (r: Result<DownloadQueueState, String>)
    requires
        old(manager).wf(),
    ensures
        final(manager).wf(),
        final(manager).permits() == old(manager).permits(),
        r is Ok,
        r->Ok_0@ == final(manager).queue(),
        final(manager).queue() == after_remove(old(manager).queue(), item_id@),
        final(manager).registry() == old(manager).registry().after_signal(item_id@).after_clear(
            item_id@,
        ),
        final(manager).meters() == without_key(old(manager).meters(), item_id@),
        final(manager).throttle() == without_key(old(manager).throttle(), item_id@),
        final(manager).issued() == seq![StoreRequest::<DownloadTaskView>::Remove(item_id@)],
{
    manager.remove(item_id)
}

/// Asks a download to stop; see [`DownloadManager::cancel`].
pub fn cancel_download_task<S: DownloadStore>(manager: &mut DownloadManager<S>, item_id: &str)
    -> (r: Result<DownloadQueueState, String>)
    requires
        old(manager).wf(),
    ensures
        final(manager).wf(),
        final(manager).permits() == old(manager).permits(),
        final(manager).queue() == old(manager).queue(),
        final(manager).meters() == old(manager).meters(),
        final(manager).throttle() == old(manager).throttle(),
        final(manager).issued() == Seq::<StoreRequest<DownloadTaskView>>::empty(),
        final(manager).registry() == old(manager).registry().after_signal(item_id@),
        r is Ok == old(manager).registry().is_registered(item_id@),
        r is Ok ==> r->Ok_0@ == final(manager).queue(),
        r is Err ==> r->Err_0@ == download_error_text(QueueError::NotFound),
{
    manager.cancel(item_id)
}

/// Empties the history; see [`DownloadManager::clear_history`].
pub fn clear_download_history<S: DownloadStore>(manager: &mut DownloadManager<S>) -> (r: Result<
    DownloadQueueState,
    String,
>)
    requires
        old(manager).wf(),
    ensures
        final(manager).wf(),
        final(manager).permits() == old(manager).permits(),
        final(manager).registry() == old(manager).registry(),
        r is Ok,
        r->Ok_0@ == final(manager).queue(),
        final(manager).queue() == after_clear_history(old(manager).queue()),
        final(manager).meters() == old(manager).meters().filter(
            listed(keys_of(old(manager).queue().active)),
        ),
        final(manager).throttle() == old(manager).throttle().filter(
            listed(keys_of(old(manager).queue().active)),
        ),
        final(manager).issued() == seq![StoreRequest::<DownloadTaskView>::ClearHistory],
{
    manager.clear_history()
}

/// Drops the failed downloads; see [`DownloadManager::clear_failed_tasks`].
pub fn clear_failed_download_tasks<S: DownloadStore>(manager: &mut DownloadManager<S>) -> (r:
    Result<DownloadQueueState, String>)
    requires
        old(manager).wf(),
    ensures
        final(manager).wf(),
        final(manager).permits() == old(manager).permits(),
        final(manager).registry() == old(manager).registry(),
        final(manager).meters() == old(manager).meters(),
        final(manager).throttle() == old(manager).throttle(),
        r is Ok,
        r->Ok_0@ == final(manager).queue(),
        final(manager).queue() == after_clear_failed(old(manager).queue()),
        final(manager).issued() == removals::<DownloadTaskView>(
            keys_of(old(manager).queue().failed),
        ),
{
    manager.clear_failed_tasks()
}

} // verus!
