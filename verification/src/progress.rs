//! Progress metering: the byte counter of a streamed body, the throttle on
//! stored progress, the sample window of the rate estimate and the rule by
//! which subscribers are kept.

use vstd::prelude::*;

use crate::queue_model::{first_index, lemma_first_index_is};

verus! {

/// Capacity of the channel of one progress subscriber.
pub const PROGRESS_CHANNEL_CAP: usize = 64;

/// Bytes of progress that are stored at the latest.
pub const PERSIST_BYTES_THRESHOLD: u64 = 256 * 1024;

/// Nanoseconds after which progress is stored at the latest: one second.
pub const PERSIST_INTERVAL_NANOS: u128 = 1_000_000_000;

/// Nanoseconds that have to lie between two samples of the upload rate:
/// 200 milliseconds.
pub const SPEED_SAMPLE_MIN_INTERVAL_NANOS: u128 = 200_000_000;

/// Nanoseconds that the sample window of the upload rate spans: five
/// seconds.
pub const SPEED_WINDOW_NANOS: u128 = 5_000_000_000;

/// Size of the buffer through which a body is streamed.
pub const STREAM_BUFFER_BYTES: usize = 64 * 1024;

/// `a - b`, or zero where that would be negative.
pub open spec fn minus(a: u64, b: u64) -> u64 {
    if a >= b {
        (a - b) as u64
    } else {
        0
    }
}

/// `a + b`, or the largest value where that would overflow.
pub open spec fn plus(a: u64, b: u64) -> u64 {
    if a + b <= u64::MAX {
        (a + b) as u64
    } else {
        u64::MAX
    }
}

/// The bytes gained since `before`; a counter that went back gained
/// nothing.
pub fn gained(now: u64, before: u64) -> (delta: u64)
    ensures
        delta == minus(now, before),
{
    if now >= before {
        now - before
    } else {
        0
    }
}

/// Whether progress is due to be stored: at least the byte threshold was
/// gained since the last stored value, or at least the interval has passed.
pub open spec fn persist_due(stored_bytes: u64, bytes: u64, elapsed_nanos: u128) -> bool {
    minus(bytes, stored_bytes) >= PERSIST_BYTES_THRESHOLD || elapsed_nanos
        >= PERSIST_INTERVAL_NANOS
}

/// Decides whether a progress tick is stored, given the bytes stored last
/// and the time since.
pub fn should_persist(stored_bytes: u64, bytes: u64, elapsed_nanos: u128) -> (due: bool)
    ensures
        due == persist_due(stored_bytes, bytes, elapsed_nanos),
{
    gained(bytes, stored_bytes) >= PERSIST_BYTES_THRESHOLD || elapsed_nanos
        >= PERSIST_INTERVAL_NANOS
}

/// Whether a tick yields a new sample of the upload rate: bytes were
/// gained and the minimum interval has passed since the last sample.
pub open spec fn sample_due(last_bytes: u64, bytes: u64, elapsed_nanos: u128) -> bool {
    minus(bytes, last_bytes) > 0 && elapsed_nanos >= SPEED_SAMPLE_MIN_INTERVAL_NANOS
}

/// Decides whether a tick yields a new sample of the upload rate.
pub fn should_sample(last_bytes: u64, bytes: u64, elapsed_nanos: u128) -> (due: bool)
    ensures
        due == sample_due(last_bytes, bytes, elapsed_nanos),
{
    gained(bytes, last_bytes) > 0 && elapsed_nanos >= SPEED_SAMPLE_MIN_INTERVAL_NANOS
}

/// The predicate "not older than the sample window".
pub open spec fn within_window() -> spec_fn(u128) -> bool {
    |age: u128| age <= SPEED_WINDOW_NANOS
}

/// Given the ages of the samples, oldest first, tells how many leading
/// samples have left the window: all before the first one that is at most
/// as old as the window.
pub fn expired_samples(ages: &Vec<u128>) -> (n: usize)
    ensures
        n == first_index(ages@, within_window()),
        n <= ages.len(),
{
    let mut n: usize = 0;
    while n < ages.len() && ages[n] > SPEED_WINDOW_NANOS
        invariant
            n <= ages.len(),
            forall|j: int| 0 <= j < n ==> !within_window()(#[trigger] ages@[j]),
        decreases ages.len() - n,
    {
        n += 1;
    }
    proof {
        lemma_first_index_is(ages@, within_window(), n as int);
    }
    n
}

/// What was measured between two readings of a byte counter. The rate is
/// the quotient of the two, which the caller forms in floating point.
#[derive(Debug)]
pub struct RateSample {
    /// Bytes gained.
    pub delta_bytes: u64,
    /// Nanoseconds passed.
    pub elapsed_nanos: u128,
}

/// What a tick tells about the upload rate.
#[derive(Debug)]
pub enum RateReading {
    /// Nothing new: the rate published last stands.
    Unchanged,
    /// A new sample: the gain since the last sample and, where the window
    /// spans any time, the gain over the window.
    Sampled { instant: RateSample, window: Option<RateSample> },
}

/// What became of an attempt to hand an update to a subscriber without
/// waiting.
#[derive(Clone, Copy, Debug, PartialEq, Eq, Structural)]
pub enum SendOutcome {
    /// The update was queued.
    Delivered,
    /// The subscriber's channel was full and the update was dropped.
    Full,
    /// The subscriber is gone.
    Disconnected,
}

/// Whether a subscriber stays registered after an attempt to send: a slow
/// subscriber stays, one that is gone is dropped.
pub fn keeps_subscriber(outcome: SendOutcome) -> (keep: bool)
    ensures
        keep == (outcome != SendOutcome::Disconnected),
{
    match outcome {
        SendOutcome::Delivered => true,
        SendOutcome::Full => true,
        SendOutcome::Disconnected => false,
    }
}

/// Which subscribers stay after a broadcast, given the outcome of the
/// attempt for each of them.
pub fn surviving_subscribers(outcomes: &Vec<SendOutcome>) -> (keep: Vec<bool>)
    ensures
        keep.len() == outcomes.len(),
        forall|i: int|
            0 <= i < keep.len() ==> keep[i] == (#[trigger] outcomes[i]
                != SendOutcome::Disconnected),
{
    let mut keep: Vec<bool> = Vec::new();
    let mut i: usize = 0;
    while i < outcomes.len()
        invariant
            i <= outcomes.len(),
            keep.len() == i,
            forall|j: int|
                0 <= j < i ==> keep[j] == (#[trigger] outcomes[j] != SendOutcome::Disconnected),
        decreases outcomes.len() - i,
    {
        keep.push(keeps_subscriber(outcomes[i]));
        i += 1;
    }
    keep
}

/// The byte counter of a body that is streamed to the remote side.
#[derive(Debug, PartialEq, Eq)]
pub struct ProgressReader {
    sent: u64,
    total: u64,
}

/// What the counter reports after a read.
#[derive(Clone, Copy, Debug, PartialEq, Eq, Structural)]
pub struct ProgressTick {
    /// Bytes handed on so far.
    pub bytes_transferred: u64,
    /// Size of the whole body.
    pub expected_size: Option<u64>,
}

impl ProgressReader {
    /// Bytes handed on so far.
    pub closed spec fn sent(&self) -> u64 {
        self.sent
    }

    /// Size of the whole body.
    pub closed spec fn total(&self) -> u64 {
        self.total
    }

    /// A counter for a body of `total` bytes, none of them sent.
    pub fn new(total: u64) -> (r: Self)
        ensures
            r.sent() == 0,
            r.total() == total,
    {
        ProgressReader { sent: 0, total }
    }

    /// Bytes handed on so far.
    pub fn bytes_sent(&self) -> (n: u64)
        ensures
            n == self.sent(),
    {
        self.sent
    }

    /// Whether the next read may go ahead: it may not once the transfer
    /// was asked to stop.
    pub fn may_read(&self, stop_requested: bool) -> (go: bool)
        ensures
            go == !stop_requested,
    {
        !stop_requested
    }

    /// Counts the bytes of one read and returns the tick to report. An
    /// empty read, the end of the body, reports nothing. The count never
    /// goes back.
    pub fn record(&mut self, read_bytes: usize) -> (tick: Option<ProgressTick>)
        ensures
            final(self).total() == old(self).total(),
            final(self).sent() == plus(old(self).sent(), read_bytes as u64),
            final(self).sent() >= old(self).sent(),
            tick == if read_bytes > 0 {
                Some(
                    ProgressTick {
                        bytes_transferred: final(self).sent(),
                        expected_size: Some(old(self).total()),
                    },
                )
            } else {
                None::<ProgressTick>
            },
    {
        if read_bytes > 0 {
            let read = read_bytes as u64;
            if read <= u64::MAX - self.sent {
                self.sent = self.sent + read;
            } else {
                self.sent = u64::MAX;
            }
            Some(ProgressTick { bytes_transferred: self.sent, expected_size: Some(self.total) })
        } else {
            None
        }
    }
}

/// The counter after the reads `reads`, starting from `sent`.
pub open spec fn sent_after(sent: u64, reads: Seq<usize>) -> u64
    decreases reads.len(),
{
    if reads.len() == 0 {
        sent
    } else {
        plus(sent_after(sent, reads.drop_last()), reads.last() as u64)
    }
}

/// The ticks of one streamed body never go back: whatever is read, the
/// bytes reported after more reads are at least the bytes reported after
/// fewer.
pub proof fn lemma_ticks_never_go_back(sent: u64, reads: Seq<usize>, n: int)
    requires
        0 <= n <= reads.len(),
    ensures
        sent_after(sent, reads.take(n)) <= sent_after(sent, reads),
    decreases reads.len() - n,
{
    if n < reads.len() {
        lemma_ticks_never_go_back(sent, reads, n + 1);
        assert(reads.take(n + 1).drop_last() =~= reads.take(n));
    } else {
        assert(reads.take(n) =~= reads);
    }
}

} // verus!
