use skydrivex::models::{DriveItemSummary, UploadStatus};
use skydrivex::progress::ProgressTick;
use skydrivex::upload_manager::chunked::{
    accepted, align_chunk_size, classify_status, completed, parse_next_start, range_mismatch,
    resume_point, terminal, AttemptVerdict, ChunkOutcome, ChunkRange, ChunkRetry, ChunkedUpload,
    ResumePoint, SessionStatus, StatusClass, UploadProgress, UploadStep, CHUNK_ALIGNMENT,
    CHUNK_SIZE_BYTES, MAX_RETRY, SIMPLE_UPLOAD_MAX_BYTES,
};
use skydrivex::upload_manager::{MemoryUploadStore, UploadManager};

const MIB: u64 = 1024 * 1024;

fn remote(id: &str) -> DriveItemSummary {
    DriveItemSummary {
        id: id.to_string(),
        name: "big.bin".to_string(),
        size: None,
        is_folder: false,
        child_count: None,
        mime_type: None,
        last_modified: None,
        thumbnail_url: None,
    }
}

fn ranges(list: &[&str]) -> Option<Vec<String>> {
    Some(list.iter().map(|s| s.to_string()).collect())
}

#[test]
fn constants_are_as_documented() {
    assert_eq!(CHUNK_SIZE_BYTES, 10 * MIB);
    assert_eq!(CHUNK_ALIGNMENT, 320 * 1024);
    assert_eq!(CHUNK_SIZE_BYTES % CHUNK_ALIGNMENT, 0);
    assert_eq!(MAX_RETRY, 4);
    assert_eq!(SIMPLE_UPLOAD_MAX_BYTES, 250 * 1024 * 1024);
    assert_eq!(align_chunk_size(), Ok(()));
}

#[test]
fn next_start_is_read_from_the_first_range() {
    assert_eq!(parse_next_start(&ranges(&["26-"])), Some(26));
    assert_eq!(parse_next_start(&ranges(&["10485760-20971519", "99-"])), Some(10_485_760));
    assert_eq!(parse_next_start(&ranges(&["42"])), Some(42));
    assert_eq!(parse_next_start(&ranges(&["+7-9"])), Some(7));
    assert_eq!(parse_next_start(&ranges(&["007-"])), Some(7));
    assert_eq!(parse_next_start(&ranges(&["18446744073709551615-"])), Some(u64::MAX));
}

#[test]
fn next_start_is_absent_for_anything_else() {
    assert_eq!(parse_next_start(&None), None);
    assert_eq!(parse_next_start(&ranges(&[])), None);
    assert_eq!(parse_next_start(&ranges(&[""])), None);
    assert_eq!(parse_next_start(&ranges(&["-5"])), None);
    assert_eq!(parse_next_start(&ranges(&["abc-"])), None);
    assert_eq!(parse_next_start(&ranges(&[" 5-"])), None);
    assert_eq!(parse_next_start(&ranges(&["18446744073709551616-"])), None);
    assert_eq!(parse_next_start(&ranges(&["1_0-"])), None);
}

#[test]
fn content_range_header_is_formatted() {
    let range = ChunkRange { start: 0, end: 10_485_759, total: 209_715_200 };
    assert_eq!(range.content_range(), "bytes 0-10485759/209715200");
    let range = ChunkRange { start: 7, end: 7, total: 8 };
    assert_eq!(range.content_range(), "bytes 7-7/8");
}

#[test]
fn steps_follow_the_position() {
    let upload = ChunkedUpload::new(25 * MIB, 0);
    assert_eq!(upload.next_step(true), UploadStep::Cancel);
    assert_eq!(upload.next_step(false), UploadStep::ReadChunk { offset: 0, len: 10 * MIB });
    let upload = ChunkedUpload::new(25 * MIB, 20 * MIB);
    assert_eq!(upload.next_step(false), UploadStep::ReadChunk { offset: 20 * MIB, len: 5 * MIB });
    let upload = ChunkedUpload::new(25 * MIB, 25 * MIB);
    assert_eq!(upload.next_step(false), UploadStep::QueryFinal);
    let upload = ChunkedUpload::new(0, 0);
    assert_eq!(upload.next_step(false), UploadStep::QueryFinal);
    assert_eq!(ChunkedUpload::new(5, 9).next_step(false), UploadStep::QueryFinal);
}

#[test]
fn chunk_range_of_a_read() {
    let upload = ChunkedUpload::new(100, 40);
    assert_eq!(upload.chunk_range(10), Ok(ChunkRange { start: 40, end: 49, total: 100 }));
    assert_eq!(upload.chunk_range(1), Ok(ChunkRange { start: 40, end: 40, total: 100 }));
    assert_eq!(upload.chunk_range(0), Err("unexpected EOF while reading file".to_string()));
    let upload = ChunkedUpload::new(u64::MAX, u64::MAX - 1);
    assert_eq!(upload.chunk_range(9).unwrap().end, u64::MAX);
}

#[test]
fn final_query_finishes_or_fails() {
    let upload = ChunkedUpload::new(8, 8);
    match upload.after_final_query(Some(remote("r"))) {
        UploadProgress::Finished { item, tick } => {
            assert_eq!(item.id, "r");
            assert_eq!(tick, ProgressTick { bytes_transferred: 8, expected_size: Some(8) });
        }
        other => panic!("unexpected {other:?}"),
    }
    assert_eq!(
        upload.after_final_query(None),
        UploadProgress::Failed("unexpected EOF while reading file".to_string())
    );
}

#[test]
fn outcomes_move_the_offset() {
    let mut upload = ChunkedUpload::new(100, 0);
    assert_eq!(
        upload.apply(ChunkOutcome::Continue { next_offset: 30 }),
        UploadProgress::Proceed(Some(ProgressTick {
            bytes_transferred: 30,
            expected_size: Some(100)
        }))
    );
    assert_eq!(upload.offset, 30);
    assert_eq!(upload.apply(ChunkOutcome::RangeMismatch(10)), UploadProgress::Proceed(None));
    assert_eq!(upload.offset, 10);
    assert_eq!(
        upload.apply(ChunkOutcome::SessionExpired),
        UploadProgress::Failed("upload session expired; please retry".to_string())
    );
    assert_eq!(upload.apply(ChunkOutcome::Cancelled), UploadProgress::Cancelled);
    assert_eq!(
        upload.apply(ChunkOutcome::Fatal("why".to_string())),
        UploadProgress::Failed("why".to_string())
    );
    assert_eq!(upload.offset, 10);
    match upload.apply(ChunkOutcome::Completed { item: remote("r") }) {
        UploadProgress::Finished { tick, .. } => assert_eq!(tick.bytes_transferred, 100),
        other => panic!("unexpected {other:?}"),
    }
}

#[test]
fn a_range_that_keeps_being_refused_ends_the_upload() {
    let mut upload = ChunkedUpload::new(100, 50);
    for n in 1..=4 {
        assert_eq!(upload.apply(ChunkOutcome::RangeMismatch(10)), UploadProgress::Proceed(None));
        assert_eq!(upload.mismatches, n);
        assert_eq!(upload.offset, 10);
    }
    assert_eq!(
        upload.apply(ChunkOutcome::RangeMismatch(20)),
        UploadProgress::Failed("upload range mismatch persisted; please retry".to_string())
    );
    assert_eq!(upload.offset, 10);
    // A chunk that arrives clears the count.
    let mut upload = ChunkedUpload::new(100, 50);
    upload.apply(ChunkOutcome::RangeMismatch(10));
    upload.apply(ChunkOutcome::RangeMismatch(10));
    upload.apply(ChunkOutcome::Continue { next_offset: 20 });
    assert_eq!(upload.mismatches, 0);
    for _ in 0..4 {
        assert_eq!(upload.apply(ChunkOutcome::RangeMismatch(10)), UploadProgress::Proceed(None));
    }
}

#[test]
fn statuses_are_classified() {
    assert_eq!(classify_status(200), StatusClass::Final);
    assert_eq!(classify_status(201), StatusClass::Final);
    assert_eq!(classify_status(202), StatusClass::Accepted);
    assert_eq!(classify_status(299), StatusClass::Accepted);
    assert_eq!(classify_status(401), StatusClass::AuthRejected);
    assert_eq!(classify_status(404), StatusClass::SessionExpired);
    assert_eq!(classify_status(409), StatusClass::Conflict);
    assert_eq!(classify_status(412), StatusClass::PreconditionFailed);
    assert_eq!(classify_status(416), StatusClass::RangeMismatch);
    assert_eq!(classify_status(500), StatusClass::Retryable);
    assert_eq!(classify_status(300), StatusClass::Retryable);
    assert_eq!(classify_status(199), StatusClass::Retryable);
    assert_eq!(classify_status(429), StatusClass::Retryable);
}

#[test]
fn answers_become_outcomes() {
    let range = ChunkRange { start: 20, end: 29, total: 100 };
    assert_eq!(accepted(Ok(ranges(&["25-"])), &range), ChunkOutcome::Continue { next_offset: 25 });
    assert_eq!(accepted(Ok(None), &range), ChunkOutcome::Continue { next_offset: 30 });
    assert_eq!(accepted(Ok(ranges(&["x"])), &range), ChunkOutcome::Continue { next_offset: 30 });
    assert_eq!(accepted(Err("bad".to_string()), &range), ChunkOutcome::Fatal("bad".to_string()));
    assert_eq!(
        completed(Err("eof".to_string())),
        ChunkOutcome::Fatal("parse final response failed: eof".to_string())
    );
    assert_eq!(completed(Ok(remote("r"))), ChunkOutcome::Completed { item: remote("r") });
    let status = SessionStatus { next_expected_ranges: ranges(&["10-"]), item: None };
    assert_eq!(range_mismatch(Some(status), &range), ChunkOutcome::RangeMismatch(10));
    let status = SessionStatus { next_expected_ranges: None, item: None };
    assert_eq!(range_mismatch(Some(status), &range), ChunkOutcome::RangeMismatch(20));
    assert_eq!(range_mismatch(None, &range), ChunkOutcome::RangeMismatch(20));
    assert_eq!(terminal(StatusClass::SessionExpired), Some(ChunkOutcome::SessionExpired));
    assert_eq!(
        terminal(StatusClass::AuthRejected),
        Some(ChunkOutcome::Fatal(
            "access token rejected by Graph API; please sign in again".to_string()
        ))
    );
    assert_eq!(
        terminal(StatusClass::Conflict),
        Some(ChunkOutcome::Fatal("upload conflict: target file changed, please retry".to_string()))
    );
    assert_eq!(
        terminal(StatusClass::PreconditionFailed),
        Some(ChunkOutcome::Fatal("precondition failed while uploading; retry later".to_string()))
    );
    assert_eq!(terminal(StatusClass::Retryable), None);
    assert_eq!(terminal(StatusClass::Final), None);
    assert_eq!(terminal(StatusClass::Accepted), None);
    assert_eq!(terminal(StatusClass::RangeMismatch), None);
}

#[test]
fn a_failing_chunk_is_sent_again_four_times() {
    let mut retry = ChunkRetry::new();
    assert_eq!(retry.before_attempt(false), None);
    assert_eq!(retry.before_attempt(true), Some(ChunkOutcome::Cancelled));
    let mut waits = Vec::new();
    let mut sends = 1;
    let last = loop {
        match retry.failed(format!("attempt {sends}")) {
            AttemptVerdict::RetryAfter { delay_ms } => {
                waits.push(delay_ms);
                sends += 1;
            }
            AttemptVerdict::GiveUp(outcome) => break outcome,
        }
    };
    assert_eq!(sends, 5);
    assert_eq!(waits, vec![800, 1600, 3200, 6400]);
    assert_eq!(last, ChunkOutcome::Fatal("attempt 5".to_string()));
}

#[test]
fn resume_point_follows_the_session() {
    assert_eq!(resume_point(None, 5), ResumePoint::StartAt(5));
    let status = SessionStatus { next_expected_ranges: ranges(&["77-"]), item: None };
    assert_eq!(resume_point(Some(status), 5), ResumePoint::StartAt(77));
    let status = SessionStatus { next_expected_ranges: None, item: None };
    assert_eq!(resume_point(Some(status), 5), ResumePoint::StartAt(5));
    let status = SessionStatus { next_expected_ranges: ranges(&["77-"]), item: Some(remote("r")) };
    assert_eq!(resume_point(Some(status), 5), ResumePoint::Finished(remote("r")));
}

/// A remote side that follows a script: what it answers to the n-th chunk.
struct Scripted {
    answers: Vec<ChunkOutcome>,
    sent: Vec<(u64, u64)>,
    cancelled_session: bool,
}

/// Runs the worker loop of a large upload against the script and files the
/// result with the manager.
fn run_worker(
    m: &mut UploadManager<MemoryUploadStore>,
    id: &str,
    total: u64,
    remote_side: &mut Scripted,
    stop_after_ticks: Option<usize>,
) {
    let ticket = m.cancel_ticket(id).unwrap();
    let (_, stored) = m.resume_state(id);
    let mut upload = ChunkedUpload::new(total, stored);
    let mut ticks = 0;
    let outcome: Result<String, String> = loop {
        if let Some(n) = stop_after_ticks {
            if ticks >= n {
                m.cancel(id).unwrap();
            }
        }
        match upload.next_step(m.should_stop(id, ticket)) {
            UploadStep::Cancel => {
                remote_side.cancelled_session = true;
                break Err("upload cancelled".to_string());
            }
            UploadStep::QueryFinal => match upload.after_final_query(Some(remote("final"))) {
                UploadProgress::Finished { item, tick } => {
                    m.report_progress(id, tick.bytes_transferred, tick.expected_size);
                    break Ok(item.id);
                }
                other => panic!("unexpected {other:?}"),
            },
            UploadStep::ReadChunk { offset, len } => {
                let range = upload.chunk_range(len).unwrap();
                assert_eq!(range.start, offset);
                remote_side.sent.push((range.start, range.end));
                let answer = if remote_side.answers.is_empty() {
                    accepted(Ok(None), &range)
                } else {
                    remote_side.answers.remove(0)
                };
                match upload.apply(answer) {
                    UploadProgress::Proceed(Some(tick)) => {
                        ticks += 1;
                        m.report_progress(id, tick.bytes_transferred, tick.expected_size);
                    }
                    UploadProgress::Proceed(None) => {}
                    UploadProgress::Finished { item, tick } => {
                        m.report_progress(id, tick.bytes_transferred, tick.expected_size);
                        break Ok(item.id);
                    }
                    UploadProgress::Cancelled => {
                        remote_side.cancelled_session = true;
                        break Err("upload cancelled".to_string());
                    }
                    UploadProgress::Failed(text) => break Err(text),
                }
            }
        }
    };
    m.complete_at(id, outcome, 9_000);
}

#[test]
fn range_mismatch_on_the_third_chunk_is_recovered() {
    let total = 35 * MIB;
    let mut m = UploadManager::new_at(MemoryUploadStore::new(), 1);
    m.enqueue_task("big".to_string(), None, "big.bin".to_string(), "/big.bin".to_string(), total, 2)
        .unwrap();
    let mut remote_side = Scripted {
        answers: vec![
            ChunkOutcome::Continue { next_offset: 10 * MIB },
            ChunkOutcome::Continue { next_offset: 20 * MIB },
            ChunkOutcome::RangeMismatch(10 * MIB),
        ],
        sent: Vec::new(),
        cancelled_session: false,
    };
    run_worker(&mut m, "big", total, &mut remote_side, None);
    let starts: Vec<u64> = remote_side.sent.iter().map(|r| r.0 / MIB).collect();
    assert_eq!(starts, vec![0, 10, 20, 10, 20, 30]);
    assert_eq!(remote_side.sent.last().unwrap().1, total - 1);
    let state = m.snapshot();
    assert_eq!(state.active.len(), 0);
    assert_eq!(state.failed.len(), 0);
    assert_eq!(state.completed.len(), 1);
    assert_eq!(state.completed[0].bytes_uploaded, Some(total));
    assert_eq!(state.completed[0].status, UploadStatus::Completed);
    assert_eq!(state.completed[0].remote_id.as_deref(), Some("final"));
    assert!(!remote_side.cancelled_session);
}

#[test]
fn cancellation_mid_transfer_ends_as_cancelled() {
    let total = 200 * MIB;
    let mut m = UploadManager::new_at(MemoryUploadStore::new(), 1);
    m.enqueue_task("big".to_string(), None, "big.bin".to_string(), "/big.bin".to_string(), total, 2)
        .unwrap();
    let mut remote_side = Scripted { answers: Vec::new(), sent: Vec::new(), cancelled_session: false };
    run_worker(&mut m, "big", total, &mut remote_side, Some(1));
    // One chunk went out before the request to stop, none after it.
    assert_eq!(remote_side.sent.len(), 1);
    assert!(remote_side.cancelled_session);
    let state = m.snapshot();
    assert_eq!(state.active.len(), 0);
    assert_eq!(state.completed.len(), 0);
    assert_eq!(state.failed.len(), 1);
    assert_eq!(state.failed[0].status, UploadStatus::Cancelled);
    assert_eq!(state.failed[0].error_message.as_deref(), Some("upload cancelled"));
    assert_eq!(state.failed[0].bytes_uploaded, Some(10 * MIB));
}

#[test]
fn expired_session_fails_the_upload() {
    let mut m = UploadManager::new_at(MemoryUploadStore::new(), 1);
    m.enqueue_task("big".to_string(), None, "big.bin".to_string(), "/big.bin".to_string(), 30 * MIB, 2)
        .unwrap();
    let mut remote_side = Scripted {
        answers: vec![ChunkOutcome::Continue { next_offset: 10 * MIB }, ChunkOutcome::SessionExpired],
        sent: Vec::new(),
        cancelled_session: false,
    };
    run_worker(&mut m, "big", 30 * MIB, &mut remote_side, None);
    let state = m.snapshot();
    assert_eq!(state.failed.len(), 1);
    assert_eq!(state.failed[0].status, UploadStatus::Failed);
    assert_eq!(
        state.failed[0].error_message.as_deref(),
        Some("upload session expired; please retry")
    );
}

#[test]
fn session_is_recorded_and_resumed_from() {
    let mut m = UploadManager::new_at(MemoryUploadStore::new(), 1);
    m.enqueue_task("big".to_string(), None, "big.bin".to_string(), "/big.bin".to_string(), 30 * MIB, 2)
        .unwrap();
    assert_eq!(m.resume_state("big"), (None, 0));
    m.update_task_session("big", Some("https://up/s".to_string()));
    m.report_progress("big", 10 * MIB, None);
    assert_eq!(m.resume_state("big"), (Some("https://up/s".to_string()), 10 * MIB));
    assert_eq!(m.snapshot().active[0].session_url.as_deref(), Some("https://up/s"));
    assert_eq!(m.resume_state("none"), (None, 0));
    m.update_task_session("none", Some("x".to_string()));
    assert_eq!(m.snapshot().active.len(), 1);
}
