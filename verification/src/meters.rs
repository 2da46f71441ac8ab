//! The state behind progress metering: what was stored last of each
//! transfer, and the readings from which rates are estimated. Time is a
//! count of nanoseconds on a monotonic clock, handed in by the caller:
//! every decision here is a function of its arguments.

use vstd::prelude::*;

use crate::progress::{
    expired_samples, gained, minus, persist_due, sample_due, should_persist, should_sample,
    within_window, RateReading, RateSample, SPEED_WINDOW_NANOS,
};
use crate::queue_model::{
    count_key, first_index, key_is, key_is_not, lemma_count_filter, lemma_count_positive,
    lemma_count_push, lemma_count_update, lemma_count_without, lemma_filter_skip_step,
    lemma_first_index, lemma_first_index_is, without_key, TaskRecord,
};
use crate::task_sets::{
    find, lemma_placed_unique, lemma_renewed_unique, placed, renewed, unique_keys,
};
use crate::text::{owned, str_eq};

verus! {

/// The nanoseconds from `at` to `now`, or zero when `at` is the later one.
pub open spec fn since(now: u128, at: u128) -> u128 {
    if now >= at {
        (now - at) as u128
    } else {
        0
    }
}

/// The nanoseconds from `at` to `now`.
pub fn time_since(now: u128, at: u128) -> (nanos: u128)
    ensures
        nanos == since(now, at),
{
    if now >= at {
        now - at
    } else {
        0
    }
}

/// A byte count remembered for a transfer, together with the time at
/// which it was taken.
pub struct Mark {
    id: String,
    bytes: u64,
    at: u128,
}

/// Mathematical view of a [`Mark`].
pub ghost struct MarkView {
    pub id: Seq<char>,
    pub bytes: u64,
    pub at: u128,
}

impl View for Mark {
    type V = MarkView;

    closed spec fn view(&self) -> MarkView {
        MarkView { id: self.id@, bytes: self.bytes, at: self.at }
    }
}

impl DeepView for Mark {
    type V = MarkView;

    closed spec fn deep_view(&self) -> MarkView {
        self@
    }
}

impl TaskRecord for MarkView {
    open spec fn key(self) -> Seq<char> {
        self.id
    }
}

fn mark_position(marks: &Vec<Mark>, id: &str) -> (r: Option<usize>)
    ensures
        match r {
            Some(i) => i < marks.len() && i == first_index(
                marks.deep_view(),
                key_is::<MarkView>(id@),
            ),
            None => first_index(marks.deep_view(), key_is::<MarkView>(id@)) == marks.len(),
        },
{
    let ghost p = key_is::<MarkView>(id@);
    let mut i: usize = 0;
    while i < marks.len()
        invariant
            i <= marks.len(),
            p == key_is::<MarkView>(id@),
            forall|j: int| 0 <= j < i ==> !p(#[trigger] marks.deep_view()[j]),
        decreases marks.len() - i,
    {
        if str_eq(marks[i].id.as_str(), id) {
            proof {
                assert(p(marks.deep_view()[i as int]));
                lemma_first_index_is(marks.deep_view(), p, i as int);
            }
            return Some(i);
        }
        i += 1;
    }
    proof {
        lemma_first_index_is(marks.deep_view(), p, i as int);
    }
    None
}

fn drop_mark(marks: &mut Vec<Mark>, id: &str)
    ensures
        final(marks).deep_view() == without_key(old(marks).deep_view(), id@),
{
    let ghost p = key_is_not::<MarkView>(id@);
    let ghost orig = marks.deep_view();
    let mut i: usize = 0;
    proof {
        assert(orig.skip(0) =~= orig);
        assert(orig.take(0) + orig.filter(p) =~= orig.filter(p));
    }
    while i < marks.len()
        invariant
            i <= marks.len(),
            p == key_is_not::<MarkView>(id@),
            orig.filter(p) == marks.deep_view().take(i as int) + marks.deep_view().skip(
                i as int,
            ).filter(p),
        decreases marks.len() - i,
    {
        let ghost before = marks.deep_view();
        proof {
            lemma_filter_skip_step(before, p, i as int);
        }
        if str_eq(marks[i].id.as_str(), id) {
            marks.remove(i);
            proof {
                assert(marks.deep_view().take(i as int) =~= before.take(i as int));
                assert(marks.deep_view().skip(i as int) =~= before.skip(i + 1));
            }
        } else {
            proof {
                assert(before.take(i + 1) + before.skip(i + 1).filter(p) =~= before.take(i as int)
                    + (seq![before[i as int]] + before.skip(i + 1).filter(p)));
            }
            i += 1;
        }
    }
    proof {
        let now = marks.deep_view();
        assert(now.skip(i as int) =~= Seq::<MarkView>::empty());
        reveal_with_fuel(Seq::filter, 1);
        assert(now.take(i as int) + now.skip(i as int).filter(p) =~= now);
    }
}

/// The predicate "belongs to one of the transfers `ids`".
pub open spec fn listed(ids: Seq<Seq<char>>) -> spec_fn(MarkView) -> bool {
    |m: MarkView| ids.contains(m.id)
}

fn is_listed(ids: &Vec<String>, id: &str) -> (r: bool)
    ensures
        r == ids.deep_view().contains(id@),
{
    let mut i: usize = 0;
    while i < ids.len()
        invariant
            i <= ids.len(),
            forall|j: int| 0 <= j < i ==> (#[trigger] ids.deep_view()[j]) != id@,
        decreases ids.len() - i,
    {
        if str_eq(ids[i].as_str(), id) {
            assert(ids.deep_view()[i as int] == id@);
            return true;
        }
        i += 1;
    }
    false
}

fn keep_listed(marks: &mut Vec<Mark>, ids: &Vec<String>)
    ensures
        final(marks).deep_view() == old(marks).deep_view().filter(listed(ids.deep_view())),
{
    let ghost p = listed(ids.deep_view());
    let ghost orig = marks.deep_view();
    let mut i: usize = 0;
    proof {
        assert(orig.skip(0) =~= orig);
        assert(orig.take(0) + orig.filter(p) =~= orig.filter(p));
    }
    while i < marks.len()
        invariant
            i <= marks.len(),
            p == listed(ids.deep_view()),
            orig.filter(p) == marks.deep_view().take(i as int) + marks.deep_view().skip(
                i as int,
            ).filter(p),
        decreases marks.len() - i,
    {
        let ghost before = marks.deep_view();
        proof {
            lemma_filter_skip_step(before, p, i as int);
        }
        if !is_listed(ids, marks[i].id.as_str()) {
            marks.remove(i);
            proof {
                assert(marks.deep_view().take(i as int) =~= before.take(i as int));
                assert(marks.deep_view().skip(i as int) =~= before.skip(i + 1));
            }
        } else {
            proof {
                assert(before.take(i + 1) + before.skip(i + 1).filter(p) =~= before.take(i as int)
                    + (seq![before[i as int]] + before.skip(i + 1).filter(p)));
            }
            i += 1;
        }
    }
    proof {
        let now = marks.deep_view();
        assert(now.skip(i as int) =~= Seq::<MarkView>::empty());
        reveal_with_fuel(Seq::filter, 1);
        assert(now.take(i as int) + now.skip(i as int).filter(p) =~= now);
    }
}

/// Whether a tick at time `now` is stored, given what was stored last of
/// the transfer: the first tick always is, a later one when the byte
/// threshold was gained or the interval has passed since.
pub open spec fn decision(stored: Option<MarkView>, bytes: u64, now: u128) -> bool {
    match stored {
        Some(last) => persist_due(last.bytes, bytes, since(now, last.at)),
        None => true,
    }
}

/// What a tick of the transfer `id` at time `now` does to the throttle,
/// and whether it is stored: a tick that is stored is remembered with its
/// time, any other leaves the throttle as it was.
pub open spec fn throttled_at(
    before: Seq<MarkView>,
    after: Seq<MarkView>,
    id: Seq<char>,
    bytes: u64,
    due: bool,
    now: u128,
) -> bool {
    &&& due == decision(find(before, id), bytes, now)
    &&& after == if due {
        placed(before, MarkView { id, bytes, at: now })
    } else {
        before
    }
}

/// The throttle on stored progress: for each transfer, the byte count
/// that was stored last and the time of storing. No transfer has two
/// marks.
pub struct PersistThrottle {
    marks: Vec<Mark>,
}

impl View for PersistThrottle {
    type V = Seq<MarkView>;

    closed spec fn view(&self) -> Seq<MarkView> {
        self.marks.deep_view()
    }
}

impl PersistThrottle {
    /// The invariant of the throttle: no transfer has two marks.
    pub open spec fn wf(&self) -> bool {
        unique_keys(self@)
    }

    /// A throttle that has seen no progress yet.
    pub fn new() -> (t: Self)
        ensures
            t@ == Seq::<MarkView>::empty(),
            t.wf(),
    {
        let t = PersistThrottle { marks: Vec::new() };
        proof {
            assert(t@ =~= Seq::<MarkView>::empty());
            assert forall|k: Seq<char>| #[trigger] count_key(t@, k) <= 1 by {
                crate::queue_model::lemma_count_empty::<MarkView>(k);
            }
        }
        t
    }

    /// Decides whether a tick of the transfer `id` at time `now` is
    /// stored, and remembers the tick if it is.
    pub fn should_persist_progress(&mut self, id: &str, bytes: u64, now: u128) -> (due: bool)
        ensures
            throttled_at(old(self)@, final(self)@, id@, bytes, due, now),
            old(self).wf() ==> final(self).wf(),
    {
        proof {
            if old(self).wf() {
                lemma_placed_unique(old(self)@, MarkView { id: id@, bytes, at: now });
            }
        }
        match mark_position(&self.marks, id) {
            Some(pos) => {
                let due = should_persist(
                    self.marks[pos].bytes,
                    bytes,
                    time_since(now, self.marks[pos].at),
                );
                if due {
                    self.marks.set(pos, Mark { id: owned(id), bytes, at: now });
                    proof {
                        assert(self.marks.deep_view() =~= old(self)@.update(
                            pos as int,
                            MarkView { id: id@, bytes, at: now },
                        ));
                    }
                }
                due
            },
            None => {
                self.marks.push(Mark { id: owned(id), bytes, at: now });
                proof {
                    assert(self.marks.deep_view() =~= old(self)@.push(
                        MarkView { id: id@, bytes, at: now },
                    ));
                }
                true
            },
        }
    }

    /// Forgets what was stored of the transfer `id`.
    pub fn forget(&mut self, id: &str)
        ensures
            final(self)@ == without_key(old(self)@, id@),
            old(self).wf() ==> final(self).wf(),
    {
        proof {
            if old(self).wf() {
                lemma_renewed_unique(old(self)@, MarkView { id: id@, bytes: 0, at: 0 }, |m: MarkView| true);
            }
        }
        drop_mark(&mut self.marks, id);
    }

    /// Forgets what was stored of all transfers but `ids`.
    pub fn retain_only(&mut self, ids: &Vec<String>)
        ensures
            final(self)@ == old(self)@.filter(listed(ids.deep_view())),
            old(self).wf() ==> final(self).wf(),
    {
        proof {
            if old(self).wf() {
                lemma_renewed_unique(
                    old(self)@,
                    MarkView { id: Seq::empty(), bytes: 0, at: 0 },
                    listed(ids.deep_view()),
                );
            }
        }
        keep_listed(&mut self.marks, ids);
    }
}

/// What a reading of a download at time `now` yields, given the reading
/// before: the bytes gained and the time passed since, if there was a
/// reading before and both are more than nothing.
pub open spec fn download_rate(last: Option<MarkView>, bytes: u64, now: u128) -> Option<
    RateSample,
> {
    match last {
        Some(m) => if minus(bytes, m.bytes) > 0 && since(now, m.at) > 0 {
            Some(RateSample { delta_bytes: minus(bytes, m.bytes), elapsed_nanos: since(now, m.at) })
        } else {
            None
        },
        None => None,
    }
}

/// What a reading of the download `id` at time `now` does to the meters,
/// and what it yields: the new reading takes the place of the old one.
pub open spec fn download_read_at(
    before: Seq<MarkView>,
    after: Seq<MarkView>,
    id: Seq<char>,
    bytes: u64,
    speed: Option<RateSample>,
    now: u128,
) -> bool {
    &&& after == renewed(before, MarkView { id, bytes, at: now })
    &&& speed == download_rate(find(before, id), bytes, now)
}

/// The readings of the download rate: for each download, the byte count
/// read last and the time of reading. No download has two readings.
pub struct DownloadMeters {
    marks: Vec<Mark>,
}

impl View for DownloadMeters {
    type V = Seq<MarkView>;

    closed spec fn view(&self) -> Seq<MarkView> {
        self.marks.deep_view()
    }
}

impl DownloadMeters {
    /// The invariant of the meters: no download has two readings.
    pub open spec fn wf(&self) -> bool {
        unique_keys(self@)
    }

    /// Meters without readings.
    pub fn new() -> (m: Self)
        ensures
            m@ == Seq::<MarkView>::empty(),
            m.wf(),
    {
        let m = DownloadMeters { marks: Vec::new() };
        proof {
            assert(m@ =~= Seq::<MarkView>::empty());
            assert forall|k: Seq<char>| #[trigger] count_key(m@, k) <= 1 by {
                crate::queue_model::lemma_count_empty::<MarkView>(k);
            }
        }
        m
    }

    /// Takes a reading of the download `id` at time `now` and returns what
    /// was measured since the reading before.
    pub fn compute_speed(&mut self, id: &str, bytes: u64, now: u128) -> (speed: Option<RateSample>)
        ensures
            download_read_at(old(self)@, final(self)@, id@, bytes, speed, now),
            old(self).wf() ==> final(self).wf(),
    {
        proof {
            if old(self).wf() {
                lemma_renewed_unique(
                    old(self)@,
                    MarkView { id: id@, bytes, at: now },
                    |m: MarkView| true,
                );
            }
        }
        let speed = match mark_position(&self.marks, id) {
            Some(pos) => {
                let delta = gained(bytes, self.marks[pos].bytes);
                let elapsed = time_since(now, self.marks[pos].at);
                if delta > 0 && elapsed > 0 {
                    Some(RateSample { delta_bytes: delta, elapsed_nanos: elapsed })
                } else {
                    None
                }
            },
            None => None,
        };
        drop_mark(&mut self.marks, id);
        let ghost kept = self.marks.deep_view();
        self.marks.push(Mark { id: owned(id), bytes, at: now });
        proof {
            assert(self.marks.deep_view() =~= kept.push(MarkView { id: id@, bytes, at: now }));
        }
        speed
    }

    /// Forgets the reading of the download `id`.
    pub fn forget(&mut self, id: &str)
        ensures
            final(self)@ == without_key(old(self)@, id@),
            old(self).wf() ==> final(self).wf(),
    {
        proof {
            if old(self).wf() {
                lemma_renewed_unique(old(self)@, MarkView { id: id@, bytes: 0, at: 0 }, |m: MarkView| true);
            }
        }
        drop_mark(&mut self.marks, id);
    }

    /// Forgets the readings of all downloads but `ids`.
    pub fn retain_only(&mut self, ids: &Vec<String>)
        ensures
            final(self)@ == old(self)@.filter(listed(ids.deep_view())),
            old(self).wf() ==> final(self).wf(),
    {
        proof {
            if old(self).wf() {
                lemma_renewed_unique(
                    old(self)@,
                    MarkView { id: Seq::empty(), bytes: 0, at: 0 },
                    listed(ids.deep_view()),
                );
            }
        }
        keep_listed(&mut self.marks, ids);
    }
}

/// The samples of one upload: the byte count and the time of the last
/// sample, and the samples within the window, oldest first, each with its
/// time and its byte count.
pub struct Window {
    id: String,
    bytes: u64,
    at: u128,
    samples: Vec<(u128, u64)>,
}

/// Mathematical view of a [`Window`].
pub ghost struct WindowView {
    pub id: Seq<char>,
    pub bytes: u64,
    pub at: u128,
    pub samples: Seq<(u128, u64)>,
}

impl View for Window {
    type V = WindowView;

    closed spec fn view(&self) -> WindowView {
        WindowView { id: self.id@, bytes: self.bytes, at: self.at, samples: self.samples@ }
    }
}

impl DeepView for Window {
    type V = WindowView;

    closed spec fn deep_view(&self) -> WindowView {
        self@
    }
}

impl TaskRecord for WindowView {
    open spec fn key(self) -> Seq<char> {
        self.id
    }
}

/// The predicate "belongs to one of the uploads `ids`".
pub open spec fn window_listed(ids: Seq<Seq<char>>) -> spec_fn(WindowView) -> bool {
    |w: WindowView| ids.contains(w.id)
}

/// The predicate "not older than the sample window at time `now`".
pub open spec fn in_window(now: u128) -> spec_fn((u128, u64)) -> bool {
    |sample: (u128, u64)| since(now, sample.0) <= SPEED_WINDOW_NANOS
}

/// The window of a new upload: its first reading is its first sample.
pub open spec fn opened(id: Seq<char>, bytes: u64, now: u128) -> WindowView {
    WindowView { id, bytes, at: now, samples: seq![(now, bytes)] }
}

/// The window after a reading at time `now` became a sample: the sample
/// has joined, and the leading samples that are older than the window
/// have left.
pub open spec fn resampled(w: WindowView, bytes: u64, now: u128) -> WindowView {
    let joined = w.samples.push((now, bytes));
    WindowView {
        id: w.id,
        bytes,
        at: now,
        samples: joined.skip(first_index(joined, in_window(now))),
    }
}

/// What a window measures: the bytes gained and the time passed between
/// its first and its last sample, if any time has passed.
pub open spec fn window_rate(samples: Seq<(u128, u64)>) -> Option<RateSample> {
    if samples.len() > 0 && since(samples.last().0, samples[0].0) > 0 {
        Some(
            RateSample {
                delta_bytes: minus(samples.last().1, samples[0].1),
                elapsed_nanos: since(samples.last().0, samples[0].0),
            },
        )
    } else {
        None
    }
}

/// What a reading of an upload at time `now` yields, given its window:
/// nothing new when there is no window yet, when no bytes were gained or
/// when the last sample is too young; otherwise the gain since the last
/// sample and what the window then measures.
pub open spec fn upload_rate(found: Option<WindowView>, bytes: u64, now: u128) -> RateReading {
    match found {
        Some(w) => if sample_due(w.bytes, bytes, since(now, w.at)) {
            RateReading::Sampled {
                instant: RateSample {
                    delta_bytes: minus(bytes, w.bytes),
                    elapsed_nanos: since(now, w.at),
                },
                window: window_rate(resampled(w, bytes, now).samples),
            }
        } else {
            RateReading::Unchanged
        },
        None => RateReading::Unchanged,
    }
}

/// The windows after a reading of the upload `id` at time `now`: the
/// first reading opens the window of the upload, a reading that becomes a
/// sample renews it, any other leaves it.
pub open spec fn windows_after(before: Seq<WindowView>, id: Seq<char>, bytes: u64, now: u128)
    -> Seq<WindowView> {
    match find(before, id) {
        Some(w) => if sample_due(w.bytes, bytes, since(now, w.at)) {
            before.update(UploadMeters::position(before, id), resampled(w, bytes, now))
        } else {
            before
        },
        None => before.push(opened(id, bytes, now)),
    }
}

/// What a reading of the upload `id` at time `now` does to the windows,
/// and what it yields.
pub open spec fn upload_read_at(
    before: Seq<WindowView>,
    after: Seq<WindowView>,
    id: Seq<char>,
    bytes: u64,
    speed: RateReading,
    now: u128,
) -> bool {
    &&& after == windows_after(before, id, bytes, now)
    &&& speed == upload_rate(find(before, id), bytes, now)
}

/// The readings of the upload rate: one window for each upload that has
/// been read. No upload has two windows.
pub struct UploadMeters {
    windows: Vec<Window>,
}

impl View for UploadMeters {
    type V = Seq<WindowView>;

    closed spec fn view(&self) -> Seq<WindowView> {
        self.windows.deep_view()
    }
}

impl UploadMeters {
    /// Position of the window of the upload `id`, or the number of windows
    /// when there is none.
    pub open spec fn position(windows: Seq<WindowView>, id: Seq<char>) -> int {
        first_index(windows, key_is::<WindowView>(id))
    }

    /// The invariant of the meters: no upload has two windows.
    pub open spec fn wf(&self) -> bool {
        unique_keys(self@)
    }

    /// Meters without readings.
    pub fn new() -> (m: Self)
        ensures
            m@ == Seq::<WindowView>::empty(),
            m.wf(),
    {
        let m = UploadMeters { windows: Vec::new() };
        proof {
            assert(m@ =~= Seq::<WindowView>::empty());
            assert forall|k: Seq<char>| #[trigger] count_key(m@, k) <= 1 by {
                crate::queue_model::lemma_count_empty::<WindowView>(k);
            }
        }
        m
    }

    fn window_position(&self, id: &str) -> (r: Option<usize>)
        ensures
            match r {
                Some(i) => i < self@.len() && i == Self::position(self@, id@),
                None => Self::position(self@, id@) == self@.len(),
            },
    {
        let ghost p = key_is::<WindowView>(id@);
        let mut i: usize = 0;
        while i < self.windows.len()
            invariant
                i <= self.windows.len(),
                p == key_is::<WindowView>(id@),
                forall|j: int| 0 <= j < i ==> !p(#[trigger] self.windows.deep_view()[j]),
            decreases self.windows.len() - i,
        {
            if str_eq(self.windows[i].id.as_str(), id) {
                proof {
                    assert(p(self.windows.deep_view()[i as int]));
                    lemma_first_index_is(self.windows.deep_view(), p, i as int);
                }
                return Some(i);
            }
            i += 1;
        }
        proof {
            lemma_first_index_is(self.windows.deep_view(), p, i as int);
        }
        None
    }

    /// Takes a reading of the upload `id` at time `now`. The first reading
    /// of an upload opens its window and yields nothing new, and so does a
    /// reading without gain or too soon after the last sample. Any other
    /// reading becomes a sample: it joins the window, the samples that
    /// have left the window are dropped from its front, and the gain since
    /// the last sample is returned together with what the window
    /// measures.
    pub fn compute_speed(&mut self, id: &str, bytes: u64, now: u128) -> (speed: RateReading)
        ensures
            upload_read_at(old(self)@, final(self)@, id@, bytes, speed, now),
            old(self).wf() ==> final(self).wf(),
    {
        proof {
            if old(self).wf() {
                lemma_placed_unique(old(self)@, opened(id@, bytes, now));
                if find(old(self)@, id@) is Some {
                    lemma_placed_unique(
                        old(self)@,
                        resampled(find(old(self)@, id@)->0, bytes, now),
                    );
                }
            }
            lemma_first_index(old(self)@, key_is::<WindowView>(id@));
        }
        let at = match self.window_position(id) {
            Some(at) => at,
            None => {
                let mut samples: Vec<(u128, u64)> = Vec::new();
                samples.push((now, bytes));
                let window = Window { id: owned(id), bytes, at: now, samples };
                proof {
                    assert(window@.samples =~= seq![(now, bytes)]);
                }
                self.windows.push(window);
                proof {
                    assert(self.windows.deep_view() =~= old(self)@.push(opened(id@, bytes, now)));
                }
                return RateReading::Unchanged;
            },
        };
        let ghost before = old(self)@[at as int];
        let since_last = time_since(now, self.windows[at].at);
        if !should_sample(self.windows[at].bytes, bytes, since_last) {
            return RateReading::Unchanged;
        }
        let delta = gained(bytes, self.windows[at].bytes);
        let mut window = self.windows.remove(at);
        proof {
            assert(window@ == before);
            assert(key_is::<WindowView>(id@)(before));
            assert(window.id@ == id@);
        }
        window.bytes = bytes;
        window.at = now;
        window.samples.push((now, bytes));
        let ghost joined = window.samples@;
        proof {
            assert(joined =~= before.samples.push((now, bytes)));
        }
        let mut ages: Vec<u128> = Vec::new();
        let mut i: usize = 0;
        while i < window.samples.len()
            invariant
                i <= window.samples.len(),
                window.samples@ == joined,
                ages@.len() == i,
                forall|j: int| 0 <= j < i ==> (#[trigger] ages@[j]) == since(now, joined[j].0),
            decreases window.samples.len() - i,
        {
            ages.push(time_since(now, window.samples[i].0));
            i += 1;
        }
        let left = expired_samples(&ages);
        proof {
            lemma_first_index(ages@, within_window());
            assert forall|j: int| 0 <= j < left implies !in_window(now)(#[trigger] joined[j]) by {
                assert(!within_window()(ages@[j]));
            }
            if left < joined.len() {
                assert(within_window()(ages@[left as int]));
            }
            lemma_first_index_is(joined, in_window(now), left as int);
            assert(joined.skip(0) =~= joined);
        }
        let mut gone: usize = 0;
        while gone < left
            invariant
                gone <= left <= joined.len(),
                window.samples@ == joined.skip(gone as int),
                window.id@ == id@,
                window.bytes == bytes,
                window.at == now,
            decreases left - gone,
        {
            let ghost rest = window.samples@;
            window.samples.remove(0);
            proof {
                assert(window.samples@ =~= rest.skip(1));
                assert(rest.skip(1) =~= joined.skip(gone + 1));
            }
            gone += 1;
        }
        let measured = if window.samples.len() > 0 {
            let first = window.samples[0];
            let last = window.samples[window.samples.len() - 1];
            let span = time_since(last.0, first.0);
            if span > 0 {
                Some(RateSample { delta_bytes: gained(last.1, first.1), elapsed_nanos: span })
            } else {
                None
            }
        } else {
            None
        };
        proof {
            assert(window@ == resampled(before, bytes, now));
            assert(measured == window_rate(window@.samples));
        }
        self.windows.insert(at, window);
        proof {
            assert(self.windows.deep_view() =~= old(self)@.update(
                at as int,
                resampled(before, bytes, now),
            ));
        }
        RateReading::Sampled {
            instant: RateSample { delta_bytes: delta, elapsed_nanos: since_last },
            window: measured,
        }
    }

    /// Forgets the window of the upload `id`.
    pub fn forget(&mut self, id: &str)
        ensures
            final(self)@ == without_key(old(self)@, id@),
            old(self).wf() ==> final(self).wf(),
    {
        proof {
            if old(self).wf() {
                lemma_renewed_unique(old(self)@, opened(id@, 0, 0), |w: WindowView| true);
            }
        }
        let ghost p = key_is_not::<WindowView>(id@);
        let ghost orig = self.windows.deep_view();
        let mut i: usize = 0;
        proof {
            assert(orig.skip(0) =~= orig);
            assert(orig.take(0) + orig.filter(p) =~= orig.filter(p));
        }
        while i < self.windows.len()
            invariant
                i <= self.windows.len(),
                p == key_is_not::<WindowView>(id@),
                orig.filter(p) == self.windows.deep_view().take(i as int)
                    + self.windows.deep_view().skip(i as int).filter(p),
            decreases self.windows.len() - i,
        {
            let ghost before = self.windows.deep_view();
            proof {
                lemma_filter_skip_step(before, p, i as int);
            }
            if str_eq(self.windows[i].id.as_str(), id) {
                self.windows.remove(i);
                proof {
                    assert(self.windows.deep_view().take(i as int) =~= before.take(i as int));
                    assert(self.windows.deep_view().skip(i as int) =~= before.skip(i + 1));
                }
            } else {
                proof {
                    assert(before.take(i + 1) + before.skip(i + 1).filter(p) =~= before.take(
                        i as int,
                    ) + (seq![before[i as int]] + before.skip(i + 1).filter(p)));
                }
                i += 1;
            }
        }
        proof {
            let now = self.windows.deep_view();
            assert(now.skip(i as int) =~= Seq::<WindowView>::empty());
            reveal_with_fuel(Seq::filter, 1);
            assert(now.take(i as int) + now.skip(i as int).filter(p) =~= now);
        }
    }

    /// Forgets the windows of all uploads but `ids`.
    pub fn retain_only(&mut self, ids: &Vec<String>)
        ensures
            final(self)@ == old(self)@.filter(window_listed(ids.deep_view())),
            old(self).wf() ==> final(self).wf(),
    {
        proof {
            if old(self).wf() {
                lemma_renewed_unique(
                    old(self)@,
                    opened(Seq::empty(), 0, 0),
                    window_listed(ids.deep_view()),
                );
            }
        }
        let ghost p = window_listed(ids.deep_view());
        let ghost orig = self.windows.deep_view();
        let mut i: usize = 0;
        proof {
            assert(orig.skip(0) =~= orig);
            assert(orig.take(0) + orig.filter(p) =~= orig.filter(p));
        }
        while i < self.windows.len()
            invariant
                i <= self.windows.len(),
                p == window_listed(ids.deep_view()),
                orig.filter(p) == self.windows.deep_view().take(i as int)
                    + self.windows.deep_view().skip(i as int).filter(p),
            decreases self.windows.len() - i,
        {
            let ghost before = self.windows.deep_view();
            proof {
                lemma_filter_skip_step(before, p, i as int);
            }
            if !is_listed(ids, self.windows[i].id.as_str()) {
                self.windows.remove(i);
                proof {
                    assert(self.windows.deep_view().take(i as int) =~= before.take(i as int));
                    assert(self.windows.deep_view().skip(i as int) =~= before.skip(i + 1));
                }
            } else {
                proof {
                    assert(before.take(i + 1) + before.skip(i + 1).filter(p) =~= before.take(
                        i as int,
                    ) + (seq![before[i as int]] + before.skip(i + 1).filter(p)));
                }
                i += 1;
            }
        }
        proof {
            let now = self.windows.deep_view();
            assert(now.skip(i as int) =~= Seq::<WindowView>::empty());
            reveal_with_fuel(Seq::filter, 1);
            assert(now.take(i as int) + now.skip(i as int).filter(p) =~= now);
        }
    }
}

} // verus!
