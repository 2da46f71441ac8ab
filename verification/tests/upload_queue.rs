use skydrivex::errors::QueueError;
use skydrivex::models::{UploadQueueState, UploadStatus, UploadTask};
use skydrivex::progress::RateReading;
use skydrivex::queue_model::StoreCall;
use skydrivex::upload_manager::restore::restore;
use skydrivex::upload_manager::{
    cancel_upload_task, clear_failed_upload_tasks, clear_upload_history,
    enqueue_large_upload_task, enqueue_upload_task, remove_upload_task, upload_queue_state,
    MemoryUploadStore, UploadManager, UploadStore,
};

fn manager() -> UploadManager<MemoryUploadStore> {
    UploadManager::new_at(MemoryUploadStore::new(), 1_000)
}

fn row(id: &str, name: &str, status: UploadStatus, started_at: i64) -> UploadTask {
    let finished = match status {
        UploadStatus::InProgress => None,
        _ => Some(started_at + 10),
    };
    UploadTask {
        task_id: id.to_string(),
        file_name: name.to_string(),
        local_path: format!("/tmp/{name}"),
        size: Some(100),
        mime_type: None,
        parent_id: None,
        remote_id: None,
        status,
        started_at,
        completed_at: finished,
        bytes_uploaded: Some(0),
        error_message: None,
        session_url: None,
    }
}

#[test]
fn happy_path_small_upload() {
    let mut m = manager();
    let bytes: Vec<u8> = (0..10_000u32).map(|i| (i % 251) as u8).collect();
    let state = m
        .enqueue_small_file(None, "a.txt".to_string(), "/tmp/a.txt".to_string(), &bytes, false)
        .unwrap();
    assert_eq!(state.active.len(), 1);
    assert_eq!(state.completed.len(), 0);
    assert_eq!(state.failed.len(), 0);
    let task = &state.active[0];
    assert_eq!(task.bytes_uploaded, Some(0));
    assert_eq!(task.size, Some(10_000));
    assert_eq!(task.status, UploadStatus::InProgress);
    assert_eq!(task.completed_at, None);
    assert_eq!(task.task_id.len(), 36);
    let id = task.task_id.clone();

    let tick = m.report_progress(&id, 10_000, Some(10_000)).unwrap();
    assert_eq!(tick.bytes_uploaded, 10_000);
    assert_eq!(tick.expected_size, Some(10_000));

    let last = m.complete_at(&id, Ok("remote-1".to_string()), 2_000).unwrap();
    assert_eq!(last.task_id, id);
    assert_eq!(last.bytes_uploaded, 10_000);
    let state = m.snapshot();
    assert_eq!(state.active.len(), 0);
    assert_eq!(state.completed.len(), 1);
    let done = &state.completed[0];
    assert_eq!(done.bytes_uploaded, Some(10_000));
    assert_eq!(done.remote_id.as_deref(), Some("remote-1"));
    assert_eq!(done.error_message, None);
    assert_eq!(done.status, UploadStatus::Completed);
    assert_eq!(done.completed_at, Some(2_000));
}

#[test]
fn duplicate_active_upload_is_rejected() {
    let mut m = manager();
    let bytes = vec![1u8; 16];
    m.enqueue_small_file(Some("folder".to_string()), "X".to_string(), "/tmp/X".to_string(), &bytes, false)
        .unwrap();
    let second = m.enqueue_small_file(
        Some("folder".to_string()),
        "X".to_string(),
        "/tmp/X".to_string(),
        &bytes,
        false,
    );
    assert_eq!(
        second.unwrap_err(),
        "a file of the same name is already in queue"
    );
    let state = m.snapshot();
    assert_eq!(state.active.len(), 1);
    assert_eq!(state.active[0].file_name, "X");
}

#[test]
fn same_name_in_another_folder_is_accepted() {
    let mut m = manager();
    let bytes = vec![1u8; 16];
    m.enqueue_small_file(Some("a".to_string()), "X".to_string(), "/tmp/X".to_string(), &bytes, false)
        .unwrap();
    let state = m
        .enqueue_small_file(Some("b".to_string()), "X".to_string(), "/tmp/X".to_string(), &bytes, false)
        .unwrap();
    assert_eq!(state.active.len(), 2);
}

#[test]
fn blank_name_and_blank_path_are_rejected() {
    let mut m = manager();
    let bytes = vec![1u8; 16];
    let e = m
        .enqueue_small_file(None, "  \t".to_string(), "/tmp/x".to_string(), &bytes, false)
        .unwrap_err();
    assert_eq!(e, "file name is required");
    let e = m
        .enqueue_small_file(None, "x".to_string(), " ".to_string(), &bytes, false)
        .unwrap_err();
    assert_eq!(e, "local path is required");
    let e = m
        .enqueue_large_file(None, "".to_string(), "/tmp/x".to_string(), 5, false)
        .unwrap_err();
    assert_eq!(e, "file name is required");
    assert_eq!(m.snapshot().active.len(), 0);
}

#[test]
fn oversized_small_upload_is_rejected() {
    let mut m = manager();
    m.set_payload_limit(8);
    let e = m
        .enqueue_small_file(None, "big".to_string(), "/tmp/big".to_string(), &vec![0u8; 9], false)
        .unwrap_err();
    assert_eq!(e, "file too large for simple upload; please use chunked upload");
    assert!(m
        .enqueue_small_file(None, "fits".to_string(), "/tmp/fits".to_string(), &vec![0u8; 8], false)
        .is_ok());
    assert!(m
        .enqueue_large_file(None, "big".to_string(), "/tmp/big".to_string(), 9_000_000_000, false)
        .is_ok());
}

#[test]
fn enqueue_task_rejects_an_id_in_use() {
    let mut m = manager();
    m.enqueue_task("id-1".to_string(), None, "a".to_string(), "/a".to_string(), 1, 10)
        .unwrap();
    let e = m
        .enqueue_task("id-1".to_string(), None, "b".to_string(), "/b".to_string(), 1, 11)
        .unwrap_err();
    assert_eq!(e, "a file of the same name is already in queue");
}

#[test]
fn retry_clears_stale_history_in_queue_and_store() {
    let mut m = manager();
    m.enqueue_task("id-1".to_string(), None, "a".to_string(), "/a".to_string(), 1, 10)
        .unwrap();
    m.mark_failure_at("id-1", "boom".to_string(), 20);
    assert_eq!(m.snapshot().failed.len(), 1);
    let state = m
        .enqueue_task("id-2".to_string(), None, "a".to_string(), "/a".to_string(), 1, 30)
        .unwrap();
    assert_eq!(state.failed.len(), 0);
    assert_eq!(state.active.len(), 1);
    assert_eq!(state.active[0].task_id, "id-2");
    assert_eq!(state.active[0].started_at, 30);
}

#[test]
fn cancelled_upload_is_filed_as_cancelled() {
    let mut m = manager();
    m.enqueue_task("t".to_string(), None, "a".to_string(), "/a".to_string(), 200, 10)
        .unwrap();
    let ticket = m.cancel_ticket("t").unwrap();
    assert!(!m.should_stop("t", ticket));
    m.report_progress("t", 50, Some(200)).unwrap();
    let state = m.cancel("t").unwrap();
    assert_eq!(state.active.len(), 1);
    assert!(m.should_stop("t", ticket));
    m.complete_at("t", Err("upload cancelled".to_string()), 99).unwrap();
    let state = m.snapshot();
    assert_eq!(state.active.len(), 0);
    assert_eq!(state.failed.len(), 1);
    assert_eq!(state.failed[0].status, UploadStatus::Cancelled);
    assert_eq!(state.failed[0].error_message.as_deref(), Some("upload cancelled"));
    assert_eq!(state.failed[0].bytes_uploaded, Some(50));
    assert_eq!(state.failed[0].completed_at, Some(99));
    assert_eq!(m.cancel_ticket("t"), None);
}

#[test]
fn cancel_of_unknown_task_fails() {
    let mut m = manager();
    assert_eq!(
        m.cancel("nope").unwrap_err(),
        "no such upload task, or it has already finished"
    );
}

#[test]
fn cancel_then_remove_succeeds() {
    let mut m = manager();
    m.enqueue_task("t".to_string(), None, "a".to_string(), "/a".to_string(), 200, 10)
        .unwrap();
    let ticket = m.cancel_ticket("t").unwrap();
    m.cancel("t").unwrap();
    let state = m.remove("t").unwrap();
    assert_eq!(state.active.len() + state.completed.len() + state.failed.len(), 0);
    assert!(m.should_stop("t", ticket));
    // The worker ends afterwards; nothing is filed for a task that is gone.
    assert!(m.complete_at("t", Err("upload cancelled".to_string()), 50).is_none());
    assert_eq!(m.snapshot().failed.len(), 0);
}

#[test]
fn failure_is_filed_most_recent_first() {
    let mut m = manager();
    m.enqueue_task("1".to_string(), None, "a".to_string(), "/a".to_string(), 1, 10).unwrap();
    m.enqueue_task("2".to_string(), None, "b".to_string(), "/b".to_string(), 1, 11).unwrap();
    m.mark_failure_at("1", "first".to_string(), 20);
    m.mark_failure_at("2", "second".to_string(), 21);
    let state = m.snapshot();
    assert_eq!(state.failed[0].task_id, "2");
    assert_eq!(state.failed[1].task_id, "1");
    assert_eq!(state.failed[0].status, UploadStatus::Failed);
    assert_eq!(state.failed[0].error_message.as_deref(), Some("second"));
}

#[test]
fn clear_history_twice_is_the_same() {
    let mut m = manager();
    m.enqueue_task("1".to_string(), None, "a".to_string(), "/a".to_string(), 1, 10).unwrap();
    m.enqueue_task("2".to_string(), None, "b".to_string(), "/b".to_string(), 1, 11).unwrap();
    m.enqueue_task("3".to_string(), None, "c".to_string(), "/c".to_string(), 1, 12).unwrap();
    m.mark_success_at("1", "r".to_string(), 20);
    m.mark_failure_at("2", "x".to_string(), 21);
    let once = m.clear_history().unwrap();
    let twice = m.clear_history().unwrap();
    assert_eq!(once, twice);
    assert_eq!(once.active.len(), 1);
    assert_eq!(once.completed.len(), 0);
    assert_eq!(once.failed.len(), 0);
}

#[test]
fn clear_failed_keeps_completed() {
    let mut m = manager();
    m.enqueue_task("1".to_string(), None, "a".to_string(), "/a".to_string(), 1, 10).unwrap();
    m.enqueue_task("2".to_string(), None, "b".to_string(), "/b".to_string(), 1, 11).unwrap();
    m.mark_success_at("1", "r".to_string(), 20);
    m.mark_failure_at("2", "x".to_string(), 21);
    let state = m.clear_failed_tasks().unwrap();
    assert_eq!(state.completed.len(), 1);
    assert_eq!(state.failed.len(), 0);
}

#[test]
fn snapshots_without_mutation_are_equal() {
    let mut m = manager();
    m.enqueue_task("1".to_string(), None, "a".to_string(), "/a".to_string(), 1, 10).unwrap();
    assert_eq!(m.snapshot(), m.snapshot());
}

#[test]
fn restart_fails_in_progress_row_without_session() {
    let mut store = MemoryUploadStore::new();
    store.upsert(&row("u1", "a", UploadStatus::InProgress, 5));
    let m = UploadManager::new_at(store, 77);
    let state = m.snapshot();
    assert_eq!(state.active.len(), 0);
    assert_eq!(state.failed.len(), 1);
    assert_eq!(state.failed[0].status, UploadStatus::Failed);
    assert_eq!(
        state.failed[0].error_message.as_deref(),
        Some("application interrupted, please re-enqueue")
    );
    assert_eq!(state.failed[0].completed_at, Some(77));
}

#[test]
fn restart_rewrites_the_store_row() {
    let rows = vec![row("u1", "a", UploadStatus::InProgress, 5)];
    let restart = restore(&rows, 77);
    assert_eq!(restart.rewritten.len(), 1);
    assert_eq!(restart.rewritten[0].status, UploadStatus::Failed);
    assert_eq!(restart.rewritten[0].task_id, "u1");
    let mut store = MemoryUploadStore::with_rows(rows);
    for task in &restart.rewritten {
        store.upsert(task);
    }
    assert_eq!(store.rows()[0].status, UploadStatus::Failed);
}

#[test]
fn restart_resumes_row_with_session_and_size() {
    let mut resumable = row("u1", "a", UploadStatus::InProgress, 5);
    resumable.session_url = Some("https://up/1".to_string());
    let mut no_size = row("u2", "b", UploadStatus::InProgress, 6);
    no_size.session_url = Some("https://up/2".to_string());
    no_size.size = None;
    let mut empty_url = row("u3", "c", UploadStatus::InProgress, 7);
    empty_url.session_url = Some(String::new());
    let m = UploadManager::new_at(
        MemoryUploadStore::with_rows(vec![resumable, no_size, empty_url]),
        100,
    );
    let state = m.snapshot();
    assert_eq!(state.active.len(), 1);
    assert_eq!(state.active[0].task_id, "u1");
    assert_eq!(state.failed.len(), 2);
    assert!(m.cancel_ticket("u1").is_some());
    assert_eq!(m.resume_state("u1"), (Some("https://up/1".to_string()), 0));
}

#[test]
fn restart_orders_and_keeps_first_of_equal_ids() {
    let mut a = row("a", "a", UploadStatus::Completed, 30);
    a.completed_at = Some(300);
    let mut b = row("b", "b", UploadStatus::Completed, 10);
    b.completed_at = Some(500);
    let mut c = row("c", "c", UploadStatus::Completed, 20);
    c.completed_at = Some(300);
    let mut d = row("d", "d", UploadStatus::Completed, 21);
    d.completed_at = None;
    let again = row("a", "other", UploadStatus::Failed, 1);
    let cancelled = row("x", "x", UploadStatus::Cancelled, 2);
    let restart = restore(&vec![a, b, c, d, again, cancelled], 0);
    let ids: Vec<&str> = restart.state.completed.iter().map(|t| t.task_id.as_str()).collect();
    assert_eq!(ids, vec!["b", "a", "c", "d"]);
    assert_eq!(restart.state.failed.len(), 1);
    assert_eq!(restart.state.failed[0].status, UploadStatus::Cancelled);
    assert_eq!(restart.rewritten.len(), 0);
}

#[test]
fn round_trip_through_the_store() {
    let mut m = manager();
    m.enqueue_task("1".to_string(), None, "a".to_string(), "/a".to_string(), 5, 10).unwrap();
    m.enqueue_task("2".to_string(), None, "b".to_string(), "/b".to_string(), 6, 11).unwrap();
    m.update_task_session("2", Some("https://up/2".to_string()));
    m.enqueue_task("3".to_string(), None, "c".to_string(), "/c".to_string(), 7, 12).unwrap();
    m.mark_success_at("3", "r3".to_string(), 20);
    let before = m.snapshot();
    // The same operations on a store of their own, as the manager issues them.
    let mut store = MemoryUploadStore::new();
    for task in before.active.iter().chain(before.completed.iter()) {
        store.upsert(task);
    }
    let after = UploadManager::new_at(store, 50).snapshot();
    assert_eq!(after.completed, before.completed);
    assert_eq!(after.active.len(), 1);
    assert_eq!(after.active[0], before.active[1]);
    assert_eq!(after.failed.len(), 1);
    assert_eq!(after.failed[0].task_id, "1");
    assert_eq!(after.failed[0].status, UploadStatus::Failed);
    assert_eq!(after.failed[0].file_name, before.active[0].file_name);
}

#[test]
fn progress_of_unknown_task_is_dropped() {
    let mut m = manager();
    assert!(m.report_progress("nope", 1, None).is_none());
    assert_eq!(m.snapshot(), UploadQueueState::default());
}

#[test]
fn queue_operations_report_typed_errors() {
    let mut q = UploadQueueState::default();
    let e = q.enqueue("i".to_string(), None, " ".to_string(), "/p".to_string(), 1, 0);
    assert_eq!(e, Err(QueueError::MissingIdentity));
    let e = q.enqueue("i".to_string(), None, "n".to_string(), "".to_string(), 1, 0);
    assert_eq!(e, Err(QueueError::MissingPath));
    assert!(q.enqueue("i".to_string(), None, "n".to_string(), "/p".to_string(), 1, 0).is_ok());
    let e = q.enqueue("j".to_string(), None, "n".to_string(), "/p".to_string(), 1, 0);
    assert_eq!(e, Err(QueueError::DuplicateActive));
    assert_eq!(q.active.len(), 1);
}

#[test]
fn queue_functions_forward_to_the_manager() {
    let mut m = manager();
    let state =
        enqueue_upload_task(&mut m, None, "a".to_string(), "/a".to_string(), &vec![1, 2, 3], false)
            .unwrap();
    assert_eq!(state.active[0].size, Some(3));
    let state =
        enqueue_large_upload_task(&mut m, None, "b".to_string(), "/b".to_string(), 1 << 40, true)
            .unwrap();
    assert_eq!(state.active.len(), 2);
    assert_eq!(state.active[1].size, Some(1 << 40));
    assert_ne!(state.active[0].task_id, state.active[1].task_id);
    assert!(state.active[1].started_at > 1_577_836_800_000);
    assert_eq!(upload_queue_state(&m), state);
    let first = state.active[0].task_id.clone();
    let second = state.active[1].task_id.clone();
    assert!(cancel_upload_task(&mut m, &first).is_ok());
    m.mark_cancelled(&first).unwrap();
    m.mark_failure(&second, "x".to_string()).unwrap();
    assert_eq!(upload_queue_state(&m).failed.len(), 2);
    assert_eq!(upload_queue_state(&m).failed[0].task_id, second);
    assert_eq!(remove_upload_task(&mut m, &second).unwrap().failed.len(), 1);
    assert_eq!(clear_failed_upload_tasks(&mut m).unwrap().failed.len(), 0);
    enqueue_upload_task(&mut m, None, "c".to_string(), "/c".to_string(), &vec![], false).unwrap();
    let id = upload_queue_state(&m).active[0].task_id.clone();
    m.mark_success(&id, "r".to_string()).unwrap();
    assert_eq!(upload_queue_state(&m).completed.len(), 1);
    assert_eq!(clear_upload_history(&mut m).unwrap(), UploadQueueState::default());
}

#[test]
fn first_progress_tick_is_stored_and_later_ones_are_throttled() {
    struct Counting {
        upserts: std::rc::Rc<std::cell::Cell<usize>>,
    }
    impl UploadStore for Counting {
        fn load(&mut self) -> Vec<UploadTask> {
            Vec::new()
        }
        fn upsert(&mut self, _task: &UploadTask) {
            self.upserts.set(self.upserts.get() + 1);
        }
        fn remove(&mut self, _task_id: &str) {}
        fn clear_history(&mut self) {}
    }
    let upserts = std::rc::Rc::new(std::cell::Cell::new(0));
    let mut m = UploadManager::new_at(Counting { upserts: upserts.clone() }, 0);
    m.enqueue_task("t".to_string(), None, "f".to_string(), "/f".to_string(), 1 << 30, 1).unwrap();
    assert_eq!(upserts.get(), 1);
    m.report_progress("t", 1, None);
    assert_eq!(upserts.get(), 2);
    // Little gained and little time passed: held back.
    m.report_progress("t", 2, None);
    m.report_progress("t", 3, None);
    assert_eq!(upserts.get(), 2);
    // 256 KiB gained since the tick stored last: stored.
    m.report_progress("t", 1 + 256 * 1024, None);
    assert_eq!(upserts.get(), 3);
    m.report_progress("t", 2 + 256 * 1024, None);
    assert_eq!(upserts.get(), 3);
    // The final record is always stored.
    m.complete_at("t", Ok("r".to_string()), 9);
    assert_eq!(upserts.get(), 4);
    assert_eq!(m.snapshot().completed[0].bytes_uploaded, Some(2 + 256 * 1024));
}

#[test]
fn store_mirrors_the_queue_through_a_restart() {
    let mut m = manager();
    m.enqueue_task("1".to_string(), None, "a".to_string(), "/a".to_string(), 5, 10).unwrap();
    m.mark_failure_at("1", "boom".to_string(), 11);
    // Superseding the failed upload deletes its row as well.
    m.enqueue_task("2".to_string(), None, "a".to_string(), "/a".to_string(), 5, 12).unwrap();
    m.update_task_session("2", Some("https://up/2".to_string()));
    m.enqueue_task("3".to_string(), Some("p".to_string()), "a".to_string(), "/a".to_string(), 7, 13)
        .unwrap();
    m.enqueue_task("4".to_string(), None, "d".to_string(), "/d".to_string(), 8, 14).unwrap();
    m.mark_success_at("4", "r4".to_string(), 20);
    m.enqueue_task("5".to_string(), None, "e".to_string(), "/e".to_string(), 9, 15).unwrap();
    m.mark_cancelled_at("5", 21);
    m.enqueue_task("6".to_string(), None, "f".to_string(), "/f".to_string(), 9, 16).unwrap();
    m.remove("6").unwrap();
    let before = m.snapshot();
    let mut ids: Vec<String> = m.store().rows().iter().map(|t| t.task_id.clone()).collect();
    ids.sort();
    assert_eq!(ids, vec!["2", "3", "4", "5"]);

    let after = UploadManager::new_at(MemoryUploadStore::with_rows(m.store().rows()), 99).snapshot();
    assert_eq!(after.completed, before.completed);
    // The upload with a session is resumed; the one without is filed as failed.
    assert_eq!(after.active.len(), 1);
    assert_eq!(after.active[0], before.active[0]);
    let failed: Vec<&str> = after.failed.iter().map(|t| t.task_id.as_str()).collect();
    assert_eq!(failed, vec!["3", "5"]);
    assert_eq!(after.failed[0].status, UploadStatus::Failed);
    assert_eq!(after.failed[0].completed_at, Some(99));
    assert_eq!(after.failed[1], before.failed[0]);
}

#[test]
fn clearing_history_clears_the_rows() {
    let mut m = manager();
    m.enqueue_task("1".to_string(), None, "a".to_string(), "/a".to_string(), 5, 10).unwrap();
    m.enqueue_task("2".to_string(), None, "b".to_string(), "/b".to_string(), 5, 11).unwrap();
    m.enqueue_task("3".to_string(), None, "c".to_string(), "/c".to_string(), 5, 12).unwrap();
    m.mark_success_at("1", "r".to_string(), 20);
    m.mark_failure_at("2", "x".to_string(), 21);
    assert_eq!(m.store().rows().len(), 3);
    m.clear_failed_tasks().unwrap();
    assert_eq!(m.store().rows().len(), 2);
    m.clear_history().unwrap();
    let rows = m.store().rows();
    assert_eq!(rows.len(), 1);
    assert_eq!(rows[0].task_id, "3");
}

#[test]
fn manager_is_rebuilt_from_loaded_rows() {
    let mut resumable = row("u1", "a", UploadStatus::InProgress, 5);
    resumable.session_url = Some("https://up/1".to_string());
    let rows = vec![row("u2", "b", UploadStatus::InProgress, 1), resumable];
    let m = UploadManager::from_rows(MemoryUploadStore::with_rows(rows.clone()), &rows, 42);
    let state = m.snapshot();
    assert_eq!(state, restore(&rows, 42).state);
    assert_eq!(state.active.len(), 1);
    assert_eq!(state.failed[0].task_id, "u2");
    assert_eq!(m.store().rows()[0].status, UploadStatus::Failed);
    assert_eq!(m.store().rows()[0].completed_at, Some(42));
    assert!(m.cancel_ticket("u1").is_some());
    assert!(m.cancel_ticket("u2").is_none());
}

fn asked(m: &UploadManager<MemoryUploadStore>) -> Vec<String> {
    m.last_requests()
        .iter()
        .map(|call| match call {
            StoreCall::Upsert(task) => {
                format!("upsert {} {:?} {:?}", task.task_id, task.status, task.bytes_uploaded)
            }
            StoreCall::Remove(key) => format!("remove {key}"),
            StoreCall::ClearHistory => "clear".to_string(),
        })
        .collect()
}

#[test]
fn upload_ticks_never_go_back_and_never_pass_the_size() {
    let mut m = manager();
    m.enqueue_task("t".to_string(), None, "f".to_string(), "/f".to_string(), 100, 1).unwrap();
    assert_eq!(m.report_progress_at("t", 64, None, 10, 2).unwrap().bytes_uploaded, 64);
    // The remote side fell back to an earlier offset: no event goes back.
    assert!(m.report_progress_at("t", 32, None, 20, 3).is_none());
    assert_eq!(m.snapshot().active[0].bytes_uploaded, Some(64));
    assert!(asked(&m).is_empty());
    assert!(m.report_progress_at("t", 101, None, 30, 4).is_none());
    assert!(m.report_progress_at("t", 70, Some(69), 30, 4).is_none());
    let tick = m.report_progress_at("t", 100, Some(100), 40, 5).unwrap();
    assert_eq!((tick.bytes_uploaded, tick.expected_size, tick.timestamp_millis), (100, Some(100), 5));
}

#[test]
fn upload_rate_is_read_from_the_ticks() {
    let ms: u128 = 1_000_000;
    let mut m = manager();
    m.enqueue_task("t".to_string(), None, "f".to_string(), "/f".to_string(), 10_000, 1).unwrap();
    assert!(matches!(m.report_progress_at("t", 0, None, 0, 1).unwrap().speed, RateReading::Unchanged));
    assert!(matches!(
        m.report_progress_at("t", 10, None, 199 * ms, 2).unwrap().speed,
        RateReading::Unchanged
    ));
    match m.report_progress_at("t", 4_000, None, 250 * ms, 3).unwrap().speed {
        RateReading::Sampled { instant, window } => {
            assert_eq!((instant.delta_bytes, instant.elapsed_nanos), (4_000, 250 * ms));
            let window = window.unwrap();
            assert_eq!((window.delta_bytes, window.elapsed_nanos), (4_000, 250 * ms));
        }
        RateReading::Unchanged => panic!("a sample was due"),
    }
}

#[test]
fn upload_manager_tells_what_it_asked_of_the_store() {
    let mut m = manager();
    m.enqueue_task("a".to_string(), None, "f".to_string(), "/f".to_string(), 9, 1).unwrap();
    assert_eq!(asked(&m), vec!["upsert a InProgress Some(0)"]);
    // Refusals ask nothing.
    assert!(m.enqueue_task("b".to_string(), None, "f".to_string(), "/f".to_string(), 9, 2).is_err());
    assert!(asked(&m).is_empty());
    assert!(m.enqueue_small_file(None, "   ".to_string(), "/tmp/a".to_string(), &vec![1u8], false).is_err());
    assert!(asked(&m).is_empty());
    m.set_payload_limit(2);
    assert!(m.enqueue_small_file(None, "g".to_string(), "/g".to_string(), &vec![1u8, 2, 3], false).is_err());
    assert!(asked(&m).is_empty());
    assert_eq!(m.store().rows().len(), 1);
    // A task that is not running is not written on cancellation.
    assert!(m.mark_cancelled_at("nope", 3).is_none());
    assert!(asked(&m).is_empty());
    m.mark_cancelled_at("a", 3).unwrap();
    assert_eq!(asked(&m), vec!["upsert a Cancelled Some(0)"]);
    assert!(m.cancel_ticket("a").is_none());
    // The same file again: the cancelled task is superseded, its row deleted.
    m.enqueue_task("c".to_string(), None, "f".to_string(), "/f".to_string(), 9, 4).unwrap();
    assert_eq!(asked(&m), vec!["remove a", "upsert c InProgress Some(0)"]);
    assert_eq!(m.store().rows().len(), 1);
    m.update_task_session("c", Some("https://up".to_string()));
    assert_eq!(asked(&m), vec!["upsert c InProgress Some(0)"]);
    assert_eq!(m.store().rows()[0].session_url.as_deref(), Some("https://up"));
    m.update_task_session("nope", None);
    assert!(asked(&m).is_empty());
    m.mark_failure_at("c", "x".to_string(), 5).unwrap();
    assert_eq!(asked(&m), vec!["upsert c Failed Some(0)"]);
    m.clear_failed_tasks().unwrap();
    assert_eq!(asked(&m), vec!["remove c"]);
    m.remove("zzz").unwrap();
    assert_eq!(asked(&m), vec!["remove zzz"]);
    m.clear_history().unwrap();
    assert_eq!(asked(&m), vec!["clear"]);
    assert!(m.store().rows().is_empty());
}

#[test]
fn upload_restart_asks_the_store_to_write_what_it_filed_as_failed() {
    let mut resumable = row("keep", "k", UploadStatus::InProgress, 2);
    resumable.session_url = Some("https://up".to_string());
    let mut stranded = row("lost", "l", UploadStatus::InProgress, 3);
    stranded.error_message = Some("earlier".to_string());
    let store = MemoryUploadStore::with_rows(vec![resumable, stranded]);
    let m = UploadManager::new_at(store, 50);
    assert_eq!(asked(&m), vec!["upsert lost Failed Some(0)"]);
    let state = m.snapshot();
    assert_eq!(state.active.len(), 1);
    assert_eq!(
        state.failed[0].error_message.as_deref(),
        Some("application interrupted, please re-enqueue")
    );
    let rows = m.store().rows();
    assert_eq!(rows[1].status, UploadStatus::Failed);
    assert_eq!(rows[1].completed_at, Some(50));
}

#[test]
fn memory_upload_store_serves_requests_one_by_one() {
    let mut m = manager();
    let mut mirror = MemoryUploadStore::new();
    m.enqueue_task("a".to_string(), None, "f".to_string(), "/f".to_string(), 9, 1).unwrap();
    for call in m.last_requests() {
        mirror.serve(call);
    }
    m.mark_failure_at("a", "x".to_string(), 2).unwrap();
    for call in m.last_requests() {
        mirror.serve(call);
    }
    m.enqueue_task("b".to_string(), None, "f".to_string(), "/f".to_string(), 9, 3).unwrap();
    for call in m.last_requests() {
        mirror.serve(call);
    }
    assert_eq!(mirror.rows(), m.store().rows());
    assert_eq!(mirror.rows().len(), 1);
    mirror.serve(&StoreCall::ClearHistory);
    assert_eq!(mirror.rows().len(), 1);
    mirror.serve(&StoreCall::Remove("b".to_string()));
    assert!(mirror.rows().is_empty());
}
