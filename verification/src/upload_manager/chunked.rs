//! The large-file upload as a state machine: which chunk is sent next, what
//! each answer of the remote side means, and when a failing chunk is sent
//! again.

use vstd::prelude::*;
use vstd::string::StringExecFns;

use crate::models::DriveItemSummary;
use crate::progress::{plus, ProgressTick};
use crate::text::{
    format_content_range, decimal, owned, parse_u64, parsed_number, position_of_char, split_once,
};

verus! {

/// Largest payload that a single-request upload may carry: 250 MiB.
pub const SIMPLE_UPLOAD_MAX_BYTES: usize = 250 * 1024 * 1024;

/// Size of one chunk: 10 MiB.
pub const CHUNK_SIZE_BYTES: u64 = 10 * 1024 * 1024;

/// A chunk has to be a multiple of 320 KiB.
pub const CHUNK_ALIGNMENT: u64 = 320 * 1024;

/// How often a failing chunk is sent again.
pub const MAX_RETRY: usize = 4;

/// The delay on which the waits between attempts are based, in
/// milliseconds.
pub const RETRY_BASE_DELAY_MS: u64 = 400;

/// Confirms that the chunk size is a multiple of the alignment.
pub fn align_chunk_size() -> (r: Result<(), String>)
    ensures
        r is Ok,
{
    if CHUNK_SIZE_BYTES % CHUNK_ALIGNMENT != 0 {
        return Err(owned("CHUNK_SIZE_BYTES must align with 320KiB per Graph requirement"));
    }
    Ok(())
}

/// The part of a range `START-END`, or of a bare `START`, that names the
/// start.
pub open spec fn range_start_text(raw: Seq<char>) -> Seq<char> {
    let cut = position_of_char(raw, '-');
    if cut < raw.len() {
        raw.take(cut)
    } else {
        raw
    }
}

/// The offset at which the remote side expects the next byte, as its list
/// of expected ranges tells it: the start of the first range, if the list
/// has one and its start is a number.
pub open spec fn next_start(ranges: Option<Seq<Seq<char>>>) -> Option<u64> {
    match ranges {
        Some(list) => if list.len() > 0 {
            match parsed_number(range_start_text(list[0]), u64::MAX as nat) {
                Some(n) => Some(n as u64),
                None => None,
            }
        } else {
            None
        },
        None => None,
    }
}

/// Reads the offset at which the remote side expects the next byte from
/// its list of expected ranges.
pub fn parse_next_start(next_expected: &Option<Vec<String>>) -> (r: Option<u64>)
    ensures
        r == next_start(next_expected.deep_view()),
{
    match next_expected {
        Some(list) => {
            if list.len() == 0 {
                return None;
            }
            let raw = list[0].as_str();
            proof {
                assert(next_expected.deep_view()->0[0] == raw@);
            }
            match split_once(raw, '-') {
                Some((start, _)) => parse_u64(start),
                None => parse_u64(raw),
            }
        },
        None => None,
    }
}

/// What the remote side tells about a session when asked.
#[derive(Debug, PartialEq, Eq)]
pub struct SessionStatus {
    /// The ranges that the remote side still expects.
    pub next_expected_ranges: Option<Vec<String>>,
    /// The finished item, once the last byte has arrived.
    pub item: Option<DriveItemSummary>,
}

/// How a large upload begins once its session has been asked.
#[derive(Debug, PartialEq, Eq)]
pub enum ResumePoint {
    /// The remote side already holds the whole file.
    Finished(DriveItemSummary),
    /// Bytes are sent from this offset on.
    StartAt(u64),
}

/// Decides where a large upload begins: with an answer from the session,
/// at the offset that the remote side expects, or at the stored offset when
/// it names none; and not at all when the session already holds the
/// finished item. Without an answer it begins at the stored offset.
pub fn resume_point(status: Option<SessionStatus>, stored_offset: u64) -> (r: ResumePoint)
    ensures
        match status {
            Some(s) => match s.item {
                Some(item) => r == ResumePoint::Finished(item),
                None => r == ResumePoint::StartAt(
                    match next_start(s.next_expected_ranges.deep_view()) {
                        Some(next) => next,
                        None => stored_offset,
                    },
                ),
            },
            None => r == ResumePoint::StartAt(stored_offset),
        },
{
    match status {
        Some(s) => {
            let start = match parse_next_start(&s.next_expected_ranges) {
                Some(next) => next,
                None => stored_offset,
            };
            match s.item {
                Some(item) => ResumePoint::Finished(item),
                None => ResumePoint::StartAt(start),
            }
        },
        None => ResumePoint::StartAt(stored_offset),
    }
}

/// The bytes of one chunk within the file: first byte, last byte, size of
/// the file.
#[derive(Clone, Copy, Debug, PartialEq, Eq, Structural)]
pub struct ChunkRange {
    pub start: u64,
    pub end: u64,
    pub total: u64,
}

impl ChunkRange {
    /// The value of the `Content-Range` header for this chunk.
    pub open spec fn header(self) -> Seq<char> {
        "bytes "@ + decimal(self.start as nat) + "-"@ + decimal(self.end as nat) + "/"@ + decimal(
            self.total as nat,
        )
    }

    /// Renders the `Content-Range` header: `bytes START-END/TOTAL`.
    pub fn content_range(&self) -> (r: String)
        ensures
            r@ == self.header(),
    {
        format_content_range(self.start, self.end, self.total)
    }
}

/// What became of one chunk.
#[derive(Debug, PartialEq, Eq)]
pub enum ChunkOutcome {
    /// The chunk arrived; the next byte expected is at `next_offset`.
    Continue { next_offset: u64 },
    /// The last chunk arrived and the remote side has built the item.
    Completed { item: DriveItemSummary },
    /// The remote side expected another range; it wants the byte at the
    /// given offset next.
    RangeMismatch(u64),
    /// The session has expired or was deleted.
    SessionExpired,
    /// The transfer was asked to stop.
    Cancelled,
    /// The chunk failed for good, for the reason given.
    Fatal(String),
}

/// What the worker does next.
#[derive(Clone, Copy, Debug, PartialEq, Eq, Structural)]
pub enum UploadStep {
    /// Tell the remote side to drop the session and report the upload as
    /// cancelled.
    Cancel,
    /// All bytes are sent: ask the session for the finished item.
    QueryFinal,
    /// Read `len` bytes of the file at `offset` and send them.
    ReadChunk { offset: u64, len: u64 },
}

/// How the upload goes on after a chunk.
#[derive(Debug, PartialEq, Eq)]
pub enum UploadProgress {
    /// On to the next step, reporting the tick if there is one.
    Proceed(Option<ProgressTick>),
    /// Done: the item, and the last tick to report.
    Finished { item: DriveItemSummary, tick: ProgressTick },
    /// Tell the remote side to drop the session and report the upload as
    /// cancelled.
    Cancelled,
    /// The upload failed, for the reason given.
    Failed(String),
}

/// The text with which an upload ends whose session has expired.
pub open spec fn expired_text() -> Seq<char> {
    "upload session expired; please retry"@
}

/// The text with which an upload ends whose ranges the remote side keeps
/// refusing.
pub open spec fn mismatch_text() -> Seq<char> {
    "upload range mismatch persisted; please retry"@
}

/// The text with which an upload ends whose file ran out before its size
/// was reached.
pub open spec fn short_file_text() -> Seq<char> {
    "unexpected EOF while reading file"@
}

/// The position of a large upload within its file.
#[derive(Clone, Copy, Debug, PartialEq, Eq, Structural)]
pub struct ChunkedUpload {
    pub offset: u64,
    pub total_size: u64,
    /// How often in a row the remote side has refused the range.
    pub mismatches: usize,
}

impl ChunkedUpload {
    /// The step that follows from the position: stop when asked to, ask
    /// for the finished item once the offset has reached the size, and
    /// otherwise send the next chunk, which is a full chunk or what is
    /// left of the file.
    pub open spec fn step(self, stop_requested: bool) -> UploadStep {
        if stop_requested {
            UploadStep::Cancel
        } else if self.offset >= self.total_size {
            UploadStep::QueryFinal
        } else {
            UploadStep::ReadChunk {
                offset: self.offset,
                len: if self.total_size - self.offset < CHUNK_SIZE_BYTES {
                    (self.total_size - self.offset) as u64
                } else {
                    CHUNK_SIZE_BYTES
                },
            }
        }
    }

    /// The position after a chunk with the given outcome: a chunk that
    /// arrived moves the offset and clears the count of refused ranges; a
    /// refused range moves the offset and is counted, unless the range was
    /// refused as often as a chunk is sent again, which ends the upload.
    pub open spec fn after(self, outcome: ChunkOutcome) -> ChunkedUpload {
        match outcome {
            ChunkOutcome::Continue { next_offset } => ChunkedUpload {
                offset: next_offset,
                mismatches: 0,
                ..self
            },
            ChunkOutcome::RangeMismatch(next) => if self.mismatches < MAX_RETRY {
                ChunkedUpload { offset: next, mismatches: (self.mismatches + 1) as usize, ..self }
            } else {
                self
            },
            _ => self,
        }
    }

    /// An upload of `total_size` bytes that begins at `offset`.
    pub fn new(total_size: u64, offset: u64) -> (u: Self)
        ensures
            u == (ChunkedUpload { offset, total_size, mismatches: 0 }),
    {
        ChunkedUpload { offset, total_size, mismatches: 0 }
    }

    /// Decides the next step of the worker.
    pub fn next_step(&self, stop_requested: bool) -> (s: UploadStep)
        ensures
            s == self.step(stop_requested),
    {
        if stop_requested {
            UploadStep::Cancel
        } else if self.offset >= self.total_size {
            UploadStep::QueryFinal
        } else {
            let remaining = self.total_size - self.offset;
            let len = if remaining < CHUNK_SIZE_BYTES {
                remaining
            } else {
                CHUNK_SIZE_BYTES
            };
            UploadStep::ReadChunk { offset: self.offset, len }
        }
    }

    /// The tick that reports the whole file as sent.
    pub fn final_tick(&self) -> (t: ProgressTick)
        ensures
            t == (ProgressTick {
                bytes_transferred: self.total_size,
                expected_size: Some(self.total_size),
            }),
    {
        ProgressTick { bytes_transferred: self.total_size, expected_size: Some(self.total_size) }
    }

    /// Goes on after the session was asked for the finished item: with the
    /// item the upload is done; without it the file has run out before the
    /// remote side was satisfied, and the upload fails.
    pub fn after_final_query(&self, item: Option<DriveItemSummary>) -> (r: UploadProgress)
        ensures
            match item {
                Some(i) => r == (UploadProgress::Finished {
                    item: i,
                    tick: ProgressTick {
                        bytes_transferred: self.total_size,
                        expected_size: Some(self.total_size),
                    },
                }),
                None => r is Failed && r->Failed_0@ == short_file_text(),
            },
    {
        match item {
            Some(i) => UploadProgress::Finished { item: i, tick: self.final_tick() },
            None => UploadProgress::Failed(owned("unexpected EOF while reading file")),
        }
    }

    /// The range of the chunk that was read: `read_len` bytes from the
    /// offset on. A read that yields nothing means that the file has run
    /// out, and is refused.
    pub fn chunk_range(&self, read_len: u64) -> (r: Result<ChunkRange, String>)
        ensures
            read_len == 0 ==> r is Err && r->Err_0@ == short_file_text(),
            read_len > 0 ==> r == Ok::<ChunkRange, String>(
                ChunkRange {
                    start: self.offset,
                    end: plus(self.offset, (read_len - 1) as u64),
                    total: self.total_size,
                },
            ),
    {
        if read_len == 0 {
            return Err(owned("unexpected EOF while reading file"));
        }
        let last = read_len - 1;
        let end = if last <= u64::MAX - self.offset {
            self.offset + last
        } else {
            u64::MAX
        };
        Ok(ChunkRange { start: self.offset, end, total: self.total_size })
    }

    /// Takes the outcome of a chunk: moves the offset where the remote
    /// side wants it and says how the upload goes on. Only a chunk that
    /// arrived is reported as progress; a refused range moves the offset
    /// silently, and ends the upload once it was refused as often in a row
    /// as a chunk is sent again.
    pub fn apply(&mut self, outcome: ChunkOutcome) -> (r: UploadProgress)
        ensures
            *final(self) == old(self).after(outcome),
            match outcome {
                ChunkOutcome::Continue { next_offset } => r == UploadProgress::Proceed(
                    Some(
                        ProgressTick {
                            bytes_transferred: next_offset,
                            expected_size: Some(old(self).total_size),
                        },
                    ),
                ),
                ChunkOutcome::Completed { item } => r == (UploadProgress::Finished {
                    item,
                    tick: ProgressTick {
                        bytes_transferred: old(self).total_size,
                        expected_size: Some(old(self).total_size),
                    },
                }),
                ChunkOutcome::RangeMismatch(_) => if old(self).mismatches < MAX_RETRY {
                    r == UploadProgress::Proceed(None)
                } else {
                    r is Failed && r->Failed_0@ == mismatch_text()
                },
                ChunkOutcome::SessionExpired => r is Failed && r->Failed_0@ == expired_text(),
                ChunkOutcome::Cancelled => r == UploadProgress::Cancelled,
                ChunkOutcome::Fatal(message) => r is Failed && r->Failed_0@ == message@,
            },
    {
        match outcome {
            ChunkOutcome::Continue { next_offset } => {
                self.offset = next_offset;
                self.mismatches = 0;
                UploadProgress::Proceed(
                    Some(
                        ProgressTick {
                            bytes_transferred: next_offset,
                            expected_size: Some(self.total_size),
                        },
                    ),
                )
            },
            ChunkOutcome::Completed { item } => UploadProgress::Finished {
                item,
                tick: self.final_tick(),
            },
            ChunkOutcome::RangeMismatch(next) => {
                if self.mismatches < MAX_RETRY {
                    self.offset = next;
                    self.mismatches = self.mismatches + 1;
                    UploadProgress::Proceed(None)
                } else {
                    UploadProgress::Failed(owned("upload range mismatch persisted; please retry"))
                }
            },
            ChunkOutcome::SessionExpired => UploadProgress::Failed(
                owned("upload session expired; please retry"),
            ),
            ChunkOutcome::Cancelled => UploadProgress::Cancelled,
            ChunkOutcome::Fatal(message) => UploadProgress::Failed(message),
        }
    }
}

/// Every chunk but the last is a full chunk, and a full chunk is a
/// multiple of the alignment; the last chunk is what is left of the file.
pub proof fn lemma_chunks_are_aligned(upload: ChunkedUpload)
    requires
        upload.offset < upload.total_size,
    ensures
        upload.step(false) is ReadChunk,
        upload.step(false)->offset == upload.offset,
        upload.step(false)->len == CHUNK_SIZE_BYTES || upload.step(false)->len
            == upload.total_size - upload.offset,
        0 < upload.step(false)->len <= CHUNK_SIZE_BYTES,
        upload.offset + upload.step(false)->len <= upload.total_size,
        CHUNK_SIZE_BYTES % CHUNK_ALIGNMENT == 0,
{
}

/// The offsets that the outcomes of a sequence of chunks report as
/// progress: one for every chunk that arrived.
pub open spec fn reported_offsets(outcomes: Seq<ChunkOutcome>) -> Seq<u64>
    decreases outcomes.len(),
{
    if outcomes.len() == 0 {
        Seq::empty()
    } else {
        match outcomes.last() {
            ChunkOutcome::Continue { next_offset } => reported_offsets(outcomes.drop_last()).push(
                next_offset,
            ),
            _ => reported_offsets(outcomes.drop_last()),
        }
    }
}

/// The offset after a sequence of chunks is the one that the last chunk
/// that moved it asked for.
pub open spec fn offset_after(upload: ChunkedUpload, outcomes: Seq<ChunkOutcome>) -> ChunkedUpload
    decreases outcomes.len(),
{
    if outcomes.len() == 0 {
        upload
    } else {
        offset_after(upload, outcomes.drop_last()).after(outcomes.last())
    }
}

/// The progress of a chunked upload is reported as the remote side
/// acknowledges it: the ticks are the offsets that it asks to continue
/// from, no more and no other.
pub proof fn lemma_ticks_follow_offsets(upload: ChunkedUpload, outcomes: Seq<ChunkOutcome>)
    ensures
        offset_after(upload, outcomes).total_size == upload.total_size,
        outcomes.len() > 0 && outcomes.last() is Continue ==> offset_after(
            upload,
            outcomes,
        ).offset == reported_offsets(outcomes).last(),
        reported_offsets(outcomes).len() <= outcomes.len(),
    decreases outcomes.len(),
{
    if outcomes.len() > 0 {
        lemma_ticks_follow_offsets(upload, outcomes.drop_last());
    }
}

/// What an HTTP status means as the answer to a chunk.
#[derive(Clone, Copy, Debug, PartialEq, Eq, Structural)]
pub enum StatusClass {
    /// 200 or 201: the body holds the finished item.
    Final,
    /// Another status of the 2xx range: the body holds the ranges that are
    /// still expected.
    Accepted,
    /// 401: the credential was refused.
    AuthRejected,
    /// 404: the session has expired or was deleted.
    SessionExpired,
    /// 409: the target changed under the upload.
    Conflict,
    /// 412: a precondition failed.
    PreconditionFailed,
    /// 416: the range is not the one the remote side expects.
    RangeMismatch,
    /// Anything else: worth another attempt.
    Retryable,
}

/// The class of an HTTP status.
pub open spec fn status_class(code: u16) -> StatusClass {
    if code == 200 || code == 201 {
        StatusClass::Final
    } else if 200 <= code < 300 {
        StatusClass::Accepted
    } else if code == 401 {
        StatusClass::AuthRejected
    } else if code == 404 {
        StatusClass::SessionExpired
    } else if code == 409 {
        StatusClass::Conflict
    } else if code == 412 {
        StatusClass::PreconditionFailed
    } else if code == 416 {
        StatusClass::RangeMismatch
    } else {
        StatusClass::Retryable
    }
}

/// Classifies the HTTP status with which the remote side answered a chunk.
pub fn classify_status(code: u16) -> (c: StatusClass)
    ensures
        c == status_class(code),
{
    if code == 200 || code == 201 {
        StatusClass::Final
    } else if 200 <= code && code < 300 {
        StatusClass::Accepted
    } else if code == 401 {
        StatusClass::AuthRejected
    } else if code == 404 {
        StatusClass::SessionExpired
    } else if code == 409 {
        StatusClass::Conflict
    } else if code == 412 {
        StatusClass::PreconditionFailed
    } else if code == 416 {
        StatusClass::RangeMismatch
    } else {
        StatusClass::Retryable
    }
}

/// The text with which an upload ends whose credential was refused.
pub open spec fn auth_rejected_text() -> Seq<char> {
    "access token rejected by Graph API; please sign in again"@
}

/// The text with which an upload ends whose target changed under it.
pub open spec fn conflict_text() -> Seq<char> {
    "upload conflict: target file changed, please retry"@
}

/// The text with which an upload ends on a failed precondition.
pub open spec fn precondition_text() -> Seq<char> {
    "precondition failed while uploading; retry later"@
}

/// The outcome of a chunk that was answered with 200 or 201: completed
/// with the item of the body, or failed for good when the body could not
/// be read.
pub fn completed(item: Result<DriveItemSummary, String>) -> (o: ChunkOutcome)
    ensures
        match item {
            Ok(i) => o == (ChunkOutcome::Completed { item: i }),
            Err(e) => o is Fatal && o->Fatal_0@ == "parse final response failed: "@ + e@,
        },
{
    match item {
        Ok(i) => ChunkOutcome::Completed { item: i },
        Err(e) => ChunkOutcome::Fatal(owned("parse final response failed: ").concat(e.as_str())),
    }
}

/// The outcome of a chunk that was accepted: the upload continues at the
/// offset that the remote side names, or behind the chunk when it names
/// none; it fails for good when the body could not be read.
pub fn accepted(ranges: Result<Option<Vec<String>>, String>, range: &ChunkRange) -> (o:
    ChunkOutcome)
    ensures
        match ranges {
            Ok(list) => o == (ChunkOutcome::Continue {
                next_offset: match next_start(list.deep_view()) {
                    Some(next) => next,
                    None => plus(range.end, 1),
                },
            }),
            Err(e) => o is Fatal && o->Fatal_0@ == e@,
        },
{
    match ranges {
        Ok(list) => {
            let next_offset = match parse_next_start(&list) {
                Some(next) => next,
                None => if range.end < u64::MAX {
                    range.end + 1
                } else {
                    u64::MAX
                },
            };
            ChunkOutcome::Continue { next_offset }
        },
        Err(e) => ChunkOutcome::Fatal(e),
    }
}

/// The outcome of a chunk whose range the remote side refused: the upload
/// goes on at the offset that the session names when asked, or at the
/// start of the chunk when the session names none or does not answer.
pub fn range_mismatch(status: Option<SessionStatus>, range: &ChunkRange) -> (o: ChunkOutcome)
    ensures
        o == ChunkOutcome::RangeMismatch(
            match status {
                Some(s) => match next_start(s.next_expected_ranges.deep_view()) {
                    Some(next) => next,
                    None => range.start,
                },
                None => range.start,
            },
        ),
{
    match status {
        Some(s) => match parse_next_start(&s.next_expected_ranges) {
            Some(next) => ChunkOutcome::RangeMismatch(next),
            None => ChunkOutcome::RangeMismatch(range.start),
        },
        None => ChunkOutcome::RangeMismatch(range.start),
    }
}

/// The outcome of a chunk that was answered with a status that ends the
/// upload. For the classes that do not end it, nothing is returned.
pub fn terminal(class: StatusClass) -> (o: Option<ChunkOutcome>)
    ensures
        match class {
            StatusClass::AuthRejected => o is Some && o->0 is Fatal && o->0->Fatal_0@
                == auth_rejected_text(),
            StatusClass::SessionExpired => o == Some(ChunkOutcome::SessionExpired),
            StatusClass::Conflict => o is Some && o->0 is Fatal && o->0->Fatal_0@
                == conflict_text(),
            StatusClass::PreconditionFailed => o is Some && o->0 is Fatal && o->0->Fatal_0@
                == precondition_text(),
            _ => o is None,
        },
{
    match class {
        StatusClass::AuthRejected => Some(
            ChunkOutcome::Fatal(owned("access token rejected by Graph API; please sign in again")),
        ),
        StatusClass::SessionExpired => Some(ChunkOutcome::SessionExpired),
        StatusClass::Conflict => Some(
            ChunkOutcome::Fatal(owned("upload conflict: target file changed, please retry")),
        ),
        StatusClass::PreconditionFailed => Some(
            ChunkOutcome::Fatal(owned("precondition failed while uploading; retry later")),
        ),
        _ => None,
    }
}

/// Two to the power of `n`.
pub open spec fn pow2(n: nat) -> nat
    decreases n,
{
    if n == 0 {
        1
    } else {
        2 * pow2((n - 1) as nat)
    }
}

/// The wait before attempt number `attempt`, counted from zero, in
/// milliseconds: the base delay doubled once per attempt.
pub open spec fn backoff_ms(attempt: nat) -> nat {
    RETRY_BASE_DELAY_MS as nat * pow2(attempt)
}

/// What follows a failed attempt.
#[derive(Debug, PartialEq, Eq)]
pub enum AttemptVerdict {
    /// Wait this many milliseconds, then send the chunk again.
    RetryAfter { delay_ms: u64 },
    /// Give up with this outcome.
    GiveUp(ChunkOutcome),
}

/// The attempts made for one chunk.
#[derive(Debug, PartialEq, Eq)]
pub struct ChunkRetry {
    attempt: usize,
}

impl ChunkRetry {
    /// The number of attempts that have failed.
    pub closed spec fn failures(&self) -> nat {
        self.attempt as nat
    }

    /// The invariant: no more attempts have failed than are ever made.
    pub closed spec fn wf(&self) -> bool {
        self.attempt <= MAX_RETRY + 1
    }

    /// No attempt made yet.
    pub fn new() -> (r: Self)
        ensures
            r.failures() == 0,
            r.wf(),
    {
        ChunkRetry { attempt: 0 }
    }

    /// Whether the next attempt may be made; it may not once the transfer
    /// was asked to stop, and the chunk then ends as cancelled.
    pub fn before_attempt(&self, stop_requested: bool) -> (o: Option<ChunkOutcome>)
        ensures
            o == if stop_requested {
                Some(ChunkOutcome::Cancelled)
            } else {
                None::<ChunkOutcome>
            },
    {
        if stop_requested {
            Some(ChunkOutcome::Cancelled)
        } else {
            None
        }
    }

    /// Takes note of a failed attempt and decides what follows: another
    /// attempt after a wait that doubles each time, or, once the chunk has
    /// been sent again as often as allowed, failure for good with the
    /// reason of the last attempt.
    pub fn failed(&mut self, reason: String) -> (v: AttemptVerdict)
        requires
            old(self).wf(),
        ensures
            final(self).wf(),
            final(self).failures() == if old(self).failures() <= MAX_RETRY {
                old(self).failures() + 1
            } else {
                old(self).failures()
            },
            if old(self).failures() < MAX_RETRY {
                v == (AttemptVerdict::RetryAfter {
                    delay_ms: backoff_ms(old(self).failures() + 1) as u64,
                })
            } else {
                v is GiveUp && v->GiveUp_0 is Fatal && v->GiveUp_0->Fatal_0@ == reason@
            },
    {
        if self.attempt <= MAX_RETRY {
            self.attempt = self.attempt + 1;
        }
        if self.attempt > MAX_RETRY {
            return AttemptVerdict::GiveUp(ChunkOutcome::Fatal(reason));
        }
        let mut factor: u64 = 1;
        let mut i: usize = 0;
        while i < self.attempt
            invariant
                i <= self.attempt <= MAX_RETRY,
                factor == pow2(i as nat),
                factor <= 16,
            decreases self.attempt - i,
        {
            proof {
                lemma_pow2_small(self.attempt as nat, i as nat);
            }
            factor = factor * 2;
            i += 1;
        }
        AttemptVerdict::RetryAfter { delay_ms: RETRY_BASE_DELAY_MS * factor }
    }
}

/// Powers of two up to the fourth.
proof fn lemma_pow2_small(limit: nat, i: nat)
    requires
        i < limit <= 4,
    ensures
        pow2(i) <= 8,
        pow2(i + 1) == 2 * pow2(i),
    decreases i,
{
    reveal_with_fuel(pow2, 5);
}

/// The waits between the attempts for one chunk: 800, 1600, 3200 and 6400
/// milliseconds.
pub proof fn lemma_backoff_schedule()
    ensures
        backoff_ms(1) == 800,
        backoff_ms(2) == 1600,
        backoff_ms(3) == 3200,
        backoff_ms(4) == 6400,
{
    reveal_with_fuel(pow2, 5);
}

} // verus!
