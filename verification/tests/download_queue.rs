use skydrivex::download_manager::restore::restore;
use skydrivex::download_manager::{
    cancel_download_task, clear_download_history, clear_failed_download_tasks,
    download_queue_state, enqueue_download_task, remove_download_task, DownloadManager,
    DownloadStore, MemoryDownloadStore,
};
use skydrivex::errors::QueueError;
use skydrivex::models::{
    DownloadQueueState, DownloadStatus, DownloadTask, DriveDownloadResult, DriveItemSummary,
};
use skydrivex::queue_model::StoreCall;

fn item(id: &str, size: Option<u64>) -> DriveItemSummary {
    DriveItemSummary {
        id: id.to_string(),
        name: format!("{id}.bin"),
        size,
        is_folder: false,
        child_count: None,
        mime_type: Some("application/octet-stream".to_string()),
        last_modified: None,
        thumbnail_url: None,
    }
}

fn manager() -> DownloadManager<MemoryDownloadStore> {
    DownloadManager::new_at(MemoryDownloadStore::new(), 1_000)
}

fn stored(id: &str, status: DownloadStatus, started_at: i64, completed_at: Option<i64>) -> DownloadTask {
    DownloadTask {
        item: item(id, Some(10)),
        status,
        started_at,
        completed_at,
        saved_path: None,
        size_label: Some(10),
        bytes_downloaded: Some(3),
        error_message: None,
    }
}

fn done(bytes: u64, expected: Option<u64>) -> DriveDownloadResult {
    DriveDownloadResult {
        file_name: "x.bin".to_string(),
        saved_path: "/dl/x.bin".to_string(),
        bytes_downloaded: bytes,
        expected_size: expected,
    }
}

#[test]
fn enqueue_lists_the_download_as_running() {
    let mut m = manager();
    let state = m.enqueue_at(item("X", Some(42)), "/dl".to_string(), false, 5).unwrap();
    assert_eq!(state.active.len(), 1);
    let task = &state.active[0];
    assert_eq!(task.item.id, "X");
    assert_eq!(task.status, DownloadStatus::InProgress);
    assert_eq!(task.started_at, 5);
    assert_eq!(task.completed_at, None);
    assert_eq!(task.size_label, Some(42));
    assert_eq!(task.bytes_downloaded, Some(0));
    assert_eq!(task.saved_path, None);
    assert_eq!(task.error_message, None);
    assert_eq!(m.snapshot(), state);
    assert_eq!(download_queue_state(&m), state);
}

#[test]
fn enqueue_reads_the_clock() {
    let mut m = manager();
    let state = m.enqueue(item("X", None), "/dl".to_string(), true).unwrap();
    // Some time after the year 2020.
    assert!(state.active[0].started_at > 1_577_836_800_000);
}

#[test]
fn duplicate_active_download_is_rejected() {
    let mut m = manager();
    enqueue_download_task(&mut m, item("X", None), "/dl".to_string(), false).unwrap();
    let second = enqueue_download_task(&mut m, item("X", None), "/dl".to_string(), false);
    assert_eq!(second.unwrap_err(), "this file is already in queue");
    let state = m.snapshot();
    assert_eq!(state.active.len(), 1);
    assert_eq!(state.active[0].item.id, "X");
}

#[test]
fn blank_id_and_blank_target_are_rejected() {
    let mut m = manager();
    let e = m.enqueue_at(item("  ", None), "/dl".to_string(), false, 1).unwrap_err();
    assert_eq!(e, "drive item id is required");
    let e = m.enqueue_at(item("X", None), "\n ".to_string(), false, 1).unwrap_err();
    assert_eq!(e, "target directory is required");
    assert_eq!(m.snapshot(), DownloadQueueState::default());
    assert_eq!(m.cancel_ticket("X"), None);
}

#[test]
fn success_moves_the_task_to_the_head_of_completed() {
    let mut m = manager();
    m.enqueue_at(item("A", None), "/dl".to_string(), false, 1).unwrap();
    m.enqueue_at(item("B", Some(7)), "/dl".to_string(), false, 2).unwrap();
    let last = m.mark_success_at("A", done(100, Some(120)), 10).unwrap();
    assert_eq!(last.item_id, "A");
    assert_eq!(last.bytes_downloaded, 100);
    assert_eq!(last.expected_size, Some(120));
    assert!(last.speed.is_none());
    m.mark_success_at("B", done(7, Some(9)), 11).unwrap();
    let state = m.snapshot();
    assert_eq!(state.active.len(), 0);
    assert_eq!(state.completed.len(), 2);
    assert_eq!(state.completed[0].item.id, "B");
    assert_eq!(state.completed[0].size_label, Some(7));
    assert_eq!(state.completed[1].item.id, "A");
    assert_eq!(state.completed[1].size_label, Some(120));
    assert_eq!(state.completed[1].saved_path.as_deref(), Some("/dl/x.bin"));
    assert_eq!(state.completed[1].bytes_downloaded, Some(100));
    assert_eq!(state.completed[1].completed_at, Some(10));
    assert_eq!(state.completed[1].status, DownloadStatus::Completed);
    assert_eq!(m.cancel_ticket("A"), None);
}

#[test]
fn success_of_a_task_that_is_not_running_changes_nothing() {
    let mut m = manager();
    m.enqueue_at(item("A", None), "/dl".to_string(), false, 1).unwrap();
    let before = m.snapshot();
    assert!(m.mark_success_at("Z", done(1, None), 10).is_none());
    assert_eq!(m.snapshot(), before);
}

#[test]
fn failure_keeps_the_message_and_the_bytes() {
    let mut m = manager();
    m.enqueue_at(item("A", Some(50)), "/dl".to_string(), false, 1).unwrap();
    m.report_progress("A", 20, None).unwrap();
    let last = m.complete_at("A", Err("network down".to_string()), 9).unwrap();
    assert_eq!(last.bytes_downloaded, 20);
    assert_eq!(last.expected_size, Some(50));
    let state = m.snapshot();
    assert_eq!(state.failed.len(), 1);
    assert_eq!(state.failed[0].status, DownloadStatus::Failed);
    assert_eq!(state.failed[0].error_message.as_deref(), Some("network down"));
    assert_eq!(state.failed[0].completed_at, Some(9));
    assert_eq!(state.failed[0].bytes_downloaded, Some(20));
}

#[test]
fn failure_of_a_task_that_is_not_running_drops_its_stale_failure() {
    let mut m = manager();
    m.enqueue_at(item("A", None), "/dl".to_string(), false, 1).unwrap();
    m.mark_failure_at("A", "first".to_string(), 2);
    assert_eq!(m.snapshot().failed.len(), 1);
    assert!(m.mark_failure_at("A", "late".to_string(), 3).is_none());
    assert_eq!(m.snapshot().failed.len(), 0);
}

#[test]
fn retry_replaces_the_history_of_the_item() {
    let mut m = manager();
    m.enqueue_at(item("A", None), "/dl".to_string(), false, 1).unwrap();
    m.mark_failure_at("A", "boom".to_string(), 2);
    let state = m.enqueue_at(item("A", None), "/dl".to_string(), false, 3).unwrap();
    assert_eq!(state.failed.len(), 0);
    assert_eq!(state.active.len(), 1);
    assert_eq!(state.active[0].started_at, 3);
}

#[test]
fn progress_updates_bytes_and_size() {
    let mut m = manager();
    m.enqueue_at(item("A", None), "/dl".to_string(), false, 1).unwrap();
    let first = m.report_progress("A", 0, Some(1_000)).unwrap();
    assert_eq!(first.bytes_downloaded, 0);
    assert_eq!(first.expected_size, Some(1_000));
    assert!(first.speed.is_none());
    let second = m.report_progress("A", 400, None).unwrap();
    assert_eq!(second.bytes_downloaded, 400);
    assert_eq!(second.expected_size, Some(1_000));
    if let Some(sample) = second.speed {
        assert_eq!(sample.delta_bytes, 400);
    }
    let state = m.snapshot();
    assert_eq!(state.active[0].bytes_downloaded, Some(400));
    assert_eq!(state.active[0].size_label, Some(1_000));
    assert!(m.report_progress("nope", 1, None).is_none());
}

#[test]
fn cancel_sets_the_flag_and_leaves_the_queue() {
    let mut m = manager();
    m.enqueue_at(item("A", None), "/dl".to_string(), false, 1).unwrap();
    let ticket = m.cancel_ticket("A").unwrap();
    assert!(!m.should_stop("A", ticket));
    let state = cancel_download_task(&mut m, "A").unwrap();
    assert_eq!(state.active.len(), 1);
    assert!(m.should_stop("A", ticket));
    assert_eq!(
        cancel_download_task(&mut m, "B").unwrap_err(),
        "no such download task, or it has already finished"
    );
}

#[test]
fn remove_after_cancel_succeeds_and_stops_the_worker() {
    let mut m = manager();
    m.enqueue_at(item("A", None), "/dl".to_string(), false, 1).unwrap();
    let ticket = m.cancel_ticket("A").unwrap();
    m.cancel("A").unwrap();
    let state = remove_download_task(&mut m, "A").unwrap();
    assert_eq!(state, DownloadQueueState::default());
    assert!(m.should_stop("A", ticket));
    // A new download of the same item gets a flag of its own.
    m.enqueue_at(item("A", None), "/dl".to_string(), false, 2).unwrap();
    let second = m.cancel_ticket("A").unwrap();
    assert_ne!(ticket, second);
    assert!(m.should_stop("A", ticket));
    assert!(!m.should_stop("A", second));
}

#[test]
fn remove_of_an_unknown_task_succeeds() {
    let mut m = manager();
    assert!(m.remove("nope").is_ok());
}

#[test]
fn clear_history_keeps_running_tasks_and_is_idempotent() {
    let mut m = manager();
    m.enqueue_at(item("A", None), "/dl".to_string(), false, 1).unwrap();
    m.enqueue_at(item("B", None), "/dl".to_string(), false, 2).unwrap();
    m.enqueue_at(item("C", None), "/dl".to_string(), false, 3).unwrap();
    m.mark_success_at("A", done(1, None), 4);
    m.mark_failure_at("B", "x".to_string(), 5);
    let once = clear_download_history(&mut m).unwrap();
    let twice = clear_download_history(&mut m).unwrap();
    assert_eq!(once, twice);
    assert_eq!(once.active.len(), 1);
    assert_eq!(once.active[0].item.id, "C");
    assert!(once.completed.is_empty() && once.failed.is_empty());
}

#[test]
fn clear_failed_drops_only_failed_tasks() {
    let mut m = manager();
    m.enqueue_at(item("A", None), "/dl".to_string(), false, 1).unwrap();
    m.enqueue_at(item("B", None), "/dl".to_string(), false, 2).unwrap();
    m.mark_success_at("A", done(1, None), 4);
    m.mark_failure_at("B", "x".to_string(), 5);
    let state = clear_failed_download_tasks(&mut m).unwrap();
    assert_eq!(state.completed.len(), 1);
    assert_eq!(state.failed.len(), 0);
    assert_eq!(clear_failed_download_tasks(&mut m).unwrap(), state);
}

#[test]
fn no_id_is_listed_twice() {
    let mut m = manager();
    for (n, id) in ["A", "B", "A", "C", "B"].iter().enumerate() {
        let _ = m.enqueue_at(item(id, None), "/dl".to_string(), false, n as i64);
        if n % 2 == 0 {
            m.mark_failure_at(id, "x".to_string(), 100 + n as i64);
        }
    }
    let state = m.snapshot();
    let mut ids: Vec<String> = state
        .active
        .iter()
        .chain(state.completed.iter())
        .chain(state.failed.iter())
        .map(|t| t.item.id.clone())
        .collect();
    let listed = ids.len();
    ids.sort();
    ids.dedup();
    assert_eq!(ids.len(), listed);
}

#[test]
fn restart_files_unfinished_downloads_as_failed() {
    let rows = vec![
        stored("run", DownloadStatus::InProgress, 5, None),
        stored("ok", DownloadStatus::Completed, 1, Some(9)),
    ];
    let m = DownloadManager::new_at(MemoryDownloadStore::with_rows(rows), 77);
    let state = m.snapshot();
    assert_eq!(state.active.len(), 0);
    assert_eq!(state.completed.len(), 1);
    assert_eq!(state.failed.len(), 1);
    assert_eq!(state.failed[0].item.id, "run");
    assert_eq!(state.failed[0].status, DownloadStatus::Failed);
    assert_eq!(state.failed[0].completed_at, Some(77));
    assert_eq!(
        state.failed[0].error_message.as_deref(),
        Some("application interrupted, please re-enqueue")
    );
}

#[test]
fn restart_overwrites_an_error_message_that_is_stored() {
    let mut row = stored("run", DownloadStatus::InProgress, 5, None);
    row.error_message = Some("earlier".to_string());
    let restart = restore(&vec![row], 8);
    assert_eq!(
        restart.state.failed[0].error_message.as_deref(),
        Some("application interrupted, please re-enqueue")
    );
    assert_eq!(restart.rewritten.len(), 1);
}

#[test]
fn restart_sorts_history_most_recent_first_and_stably() {
    let rows = vec![
        stored("a", DownloadStatus::Failed, 1, Some(10)),
        stored("b", DownloadStatus::Failed, 2, Some(30)),
        stored("c", DownloadStatus::Failed, 3, Some(10)),
        stored("d", DownloadStatus::Failed, 4, None),
        stored("e", DownloadStatus::Failed, 5, Some(i64::MIN)),
        stored("b", DownloadStatus::Completed, 6, Some(99)),
    ];
    let restart = restore(&rows, 0);
    let ids: Vec<&str> = restart.state.failed.iter().map(|t| t.item.id.as_str()).collect();
    assert_eq!(ids, vec!["b", "a", "c", "e", "d"]);
    assert_eq!(restart.state.completed.len(), 0);
    assert_eq!(restart.rewritten.len(), 0);
}

#[test]
fn download_round_trip_through_the_store() {
    let mut store = MemoryDownloadStore::new();
    let mut m = manager();
    m.enqueue_at(item("A", Some(1)), "/dl".to_string(), false, 1).unwrap();
    m.enqueue_at(item("B", Some(2)), "/dl".to_string(), false, 2).unwrap();
    m.mark_success_at("A", done(1, Some(1)), 3);
    let before = m.snapshot();
    for task in before.active.iter().chain(before.completed.iter()) {
        store.upsert(task);
    }
    let after = DownloadManager::new_at(store, 50).snapshot();
    assert_eq!(after.completed, before.completed);
    assert_eq!(after.active.len(), 0);
    assert_eq!(after.failed.len(), 1);
    assert_eq!(after.failed[0].item, before.active[0].item);
    assert_eq!(after.failed[0].status, DownloadStatus::Failed);
}

#[test]
fn memory_store_upserts_removes_and_clears() {
    let mut store = MemoryDownloadStore::new();
    store.upsert(&stored("b", DownloadStatus::InProgress, 20, None));
    store.upsert(&stored("a", DownloadStatus::Completed, 10, Some(11)));
    store.upsert(&stored("b", DownloadStatus::Failed, 20, Some(21)));
    let rows = store.load();
    assert_eq!(rows.len(), 2);
    assert_eq!(rows[0].item.id, "a");
    assert_eq!(rows[1].status, DownloadStatus::Failed);
    store.upsert(&stored("c", DownloadStatus::InProgress, 5, None));
    store.clear_history();
    assert_eq!(store.load().len(), 1);
    store.remove("c");
    assert_eq!(store.load().len(), 0);
}

#[test]
fn permits_bound_the_workers() {
    let mut m = manager();
    let mut granted = 0;
    for _ in 0..10 {
        if m.try_acquire_permit() {
            granted += 1;
        }
    }
    assert_eq!(granted, 4);
    m.update_concurrency_limit(6);
    assert!(m.try_acquire_permit());
    assert!(m.try_acquire_permit());
    assert!(!m.try_acquire_permit());
    m.update_concurrency_limit(2);
    m.release_permit();
    assert!(!m.try_acquire_permit());
    for _ in 0..4 {
        m.release_permit();
    }
    assert!(m.try_acquire_permit());
    assert!(!m.try_acquire_permit());
}

#[test]
fn subscriber_gets_one_event_per_running_task() {
    let mut m = manager();
    m.enqueue_at(item("A", Some(5)), "/dl".to_string(), false, 1).unwrap();
    m.enqueue_at(item("B", None), "/dl".to_string(), false, 2).unwrap();
    m.report_progress("B", 9, Some(90));
    let burst = m.subscribe_progress();
    assert_eq!(burst.len(), 2);
    assert_eq!(burst[0].item_id, "A");
    assert_eq!(burst[0].bytes_downloaded, 0);
    assert_eq!(burst[0].expected_size, Some(5));
    assert_eq!(burst[1].bytes_downloaded, 9);
    assert_eq!(burst[1].expected_size, Some(90));
    assert!(burst.iter().all(|u| u.speed.is_none()));
}

#[test]
fn queue_value_reports_typed_errors() {
    let mut q = DownloadQueueState::default();
    assert_eq!(q.enqueue(item("", None), "/dl", 0), Err(QueueError::MissingIdentity));
    assert_eq!(q.enqueue(item("a", None), "", 0), Err(QueueError::MissingPath));
    assert!(q.enqueue(item("a", None), "/dl", 0).is_ok());
    assert_eq!(q.enqueue(item("a", None), "/dl", 0), Err(QueueError::DuplicateActive));
}

#[test]
fn download_store_mirrors_the_queue_through_a_restart() {
    let mut m = manager();
    m.enqueue_at(item("A", Some(1)), "/dl".to_string(), false, 1).unwrap();
    m.mark_failure_at("A", "boom".to_string(), 2);
    m.enqueue_at(item("A", Some(1)), "/dl".to_string(), false, 3).unwrap();
    m.enqueue_at(item("B", Some(2)), "/dl".to_string(), false, 4).unwrap();
    m.report_progress("B", 1, None);
    m.mark_success_at("B", done(2, Some(2)), 5);
    m.enqueue_at(item("C", None), "/dl".to_string(), false, 6).unwrap();
    m.remove("C").unwrap();
    let before = m.snapshot();
    let rows = m.store().rows();
    assert_eq!(rows.len(), 2);
    let after = DownloadManager::new_at(MemoryDownloadStore::with_rows(rows), 50);
    assert_eq!(after.snapshot().completed, before.completed);
    assert_eq!(after.snapshot().active.len(), 0);
    assert_eq!(after.snapshot().failed.len(), 1);
    assert_eq!(after.snapshot().failed[0].item.id, "A");
    assert_eq!(after.snapshot().failed[0].started_at, 3);
    // The failure was written back to the store at once.
    assert_eq!(after.store().rows()[0].status, DownloadStatus::Failed);
}

fn requests_of(m: &DownloadManager<MemoryDownloadStore>) -> Vec<String> {
    m.last_requests()
        .iter()
        .map(|call| match call {
            StoreCall::Upsert(task) => format!(
                "upsert {} {:?} {:?}",
                task.item.id, task.status, task.bytes_downloaded
            ),
            StoreCall::Remove(key) => format!("remove {key}"),
            StoreCall::ClearHistory => "clear".to_string(),
        })
        .collect()
}

#[test]
fn download_ticks_never_go_back_and_never_pass_the_size() {
    let mut m = manager();
    m.enqueue_at(item("A", Some(100)), "/dl".to_string(), false, 1).unwrap();
    assert_eq!(m.report_progress_at("A", 40, None, 10, 2).unwrap().bytes_downloaded, 40);
    // Below the bytes recorded last: dropped, nothing changes.
    assert!(m.report_progress_at("A", 39, None, 20, 3).is_none());
    assert_eq!(m.snapshot().active[0].bytes_downloaded, Some(40));
    assert!(requests_of(&m).is_empty());
    // The same count again is no step back.
    assert_eq!(m.report_progress_at("A", 40, None, 30, 4).unwrap().bytes_downloaded, 40);
    // Beyond the size recorded, or beyond the size that the tick reports: dropped.
    assert!(m.report_progress_at("A", 101, None, 40, 5).is_none());
    assert!(m.report_progress_at("A", 60, Some(50), 50, 6).is_none());
    assert_eq!(m.snapshot().active[0].size_label, Some(100));
    let last = m.report_progress_at("A", 100, Some(100), 60, 7).unwrap();
    assert_eq!((last.bytes_downloaded, last.expected_size, last.timestamp_millis), (100, Some(100), 7));
    assert_eq!(m.snapshot().active[0].bytes_downloaded, Some(100));
}

#[test]
fn download_progress_is_stored_through_the_throttle() {
    let second: u128 = 1_000_000_000;
    let mut m = manager();
    m.enqueue_at(item("A", None), "/dl".to_string(), false, 1).unwrap();
    assert_eq!(requests_of(&m), vec!["upsert A InProgress Some(0)"]);
    // The first tick is stored.
    m.report_progress_at("A", 1, None, 0, 2).unwrap();
    assert_eq!(requests_of(&m), vec!["upsert A InProgress Some(1)"]);
    assert_eq!(m.store().rows()[0].bytes_downloaded, Some(1));
    // Little gained, little time passed: held back.
    m.report_progress_at("A", 2, None, second - 1, 3).unwrap();
    assert!(requests_of(&m).is_empty());
    assert_eq!(m.store().rows()[0].bytes_downloaded, Some(1));
    assert_eq!(m.snapshot().active[0].bytes_downloaded, Some(2));
    // One second after the tick stored last: stored.
    m.report_progress_at("A", 3, None, second, 4).unwrap();
    assert_eq!(requests_of(&m), vec!["upsert A InProgress Some(3)"]);
    // 256 KiB gained since the tick stored last: stored.
    m.report_progress_at("A", 3 + 262_143, None, second + 1, 5).unwrap();
    assert!(requests_of(&m).is_empty());
    m.report_progress_at("A", 3 + 262_144, None, second + 2, 6).unwrap();
    assert_eq!(m.store().rows()[0].bytes_downloaded, Some(3 + 262_144));
    // The final record is always stored, and the throttle forgets the download.
    m.mark_failure_at("A", "gone".to_string(), 9).unwrap();
    assert_eq!(requests_of(&m), vec![format!("upsert A Failed Some({})", 3 + 262_144)]);
    assert_eq!(m.store().rows()[0].status, DownloadStatus::Failed);
}

#[test]
fn download_rate_is_the_gain_over_the_time_between_two_ticks() {
    let mut m = manager();
    m.enqueue_at(item("A", None), "/dl".to_string(), false, 1).unwrap();
    assert!(m.report_progress_at("A", 100, None, 1_000, 2).unwrap().speed.is_none());
    let sample = m.report_progress_at("A", 350, None, 3_500, 3).unwrap().speed.unwrap();
    assert_eq!((sample.delta_bytes, sample.elapsed_nanos), (250, 2_500));
    // No gain: no rate.
    assert!(m.report_progress_at("A", 350, None, 4_000, 4).unwrap().speed.is_none());
    // No time passed: no rate.
    assert!(m.report_progress_at("A", 360, None, 4_000, 5).unwrap().speed.is_none());
}

#[test]
fn download_manager_tells_what_it_asked_of_the_store() {
    let mut m = manager();
    assert!(requests_of(&m).is_empty());
    m.enqueue_at(item("A", None), "/dl".to_string(), false, 1).unwrap();
    m.enqueue_at(item("B", None), "/dl".to_string(), false, 2).unwrap();
    assert_eq!(requests_of(&m), vec!["upsert B InProgress Some(0)"]);
    // A refusal asks nothing.
    assert!(m.enqueue_at(item("A", None), "/dl".to_string(), false, 3).is_err());
    assert!(requests_of(&m).is_empty());
    assert!(m.enqueue_at(item("  ", None), "/dl".to_string(), false, 3).is_err());
    assert!(requests_of(&m).is_empty());
    assert_eq!(m.store().rows().len(), 2);
    m.mark_failure_at("A", "x".to_string(), 4).unwrap();
    assert_eq!(requests_of(&m), vec!["upsert A Failed Some(0)"]);
    // A download that is not running is not written again.
    assert!(m.mark_failure_at("A", "y".to_string(), 5).is_none());
    assert!(requests_of(&m).is_empty());
    m.enqueue_at(item("A", None), "/dl".to_string(), false, 6).unwrap();
    m.mark_failure_at("A", "x".to_string(), 7).unwrap();
    m.mark_failure_at("B", "x".to_string(), 8).unwrap();
    m.cancel("A").unwrap_err();
    assert!(requests_of(&m).is_empty());
    m.clear_failed_tasks().unwrap();
    assert_eq!(requests_of(&m), vec!["remove B", "remove A"]);
    assert!(m.store().rows().is_empty());
    m.enqueue_at(item("C", None), "/dl".to_string(), false, 9).unwrap();
    m.remove("C").unwrap();
    assert_eq!(requests_of(&m), vec!["remove C"]);
    m.clear_history().unwrap();
    assert_eq!(requests_of(&m), vec!["clear"]);
}

#[test]
fn download_restart_asks_the_store_to_write_what_it_filed_as_failed() {
    let rows = vec![
        stored("run", DownloadStatus::InProgress, 5, None),
        stored("ok", DownloadStatus::Completed, 1, Some(9)),
        stored("late", DownloadStatus::InProgress, 7, None),
    ];
    let m = DownloadManager::new_at(MemoryDownloadStore::with_rows(rows), 77);
    assert_eq!(requests_of(&m), vec!["upsert run Failed Some(3)", "upsert late Failed Some(3)"]);
    let rows = m.store().rows();
    assert_eq!(rows.len(), 3);
    assert!(rows.iter().all(|row| row.status != DownloadStatus::InProgress));
    assert_eq!(rows[0].completed_at, Some(77));
}

#[test]
fn memory_download_store_serves_requests_one_by_one() {
    let mut m = manager();
    let mut mirror = MemoryDownloadStore::new();
    m.enqueue_at(item("A", None), "/dl".to_string(), false, 1).unwrap();
    for call in m.last_requests() {
        mirror.serve(call);
    }
    m.mark_success_at("A", done(7, Some(7)), 3).unwrap();
    for call in m.last_requests() {
        mirror.serve(call);
    }
    assert_eq!(mirror.rows(), m.store().rows());
    assert_eq!(mirror.rows()[0].status, DownloadStatus::Completed);
    mirror.serve(&StoreCall::ClearHistory);
    assert!(mirror.rows().is_empty());
    mirror.serve(&StoreCall::Upsert(stored("x", DownloadStatus::InProgress, 1, None)));
    mirror.serve(&StoreCall::Remove("x".to_string()));
    assert!(mirror.rows().is_empty());
}
