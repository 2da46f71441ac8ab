use std::sync::mpsc::{sync_channel, TrySendError};

use skydrivex::cancel::CancelRegistry;
use skydrivex::limiter::{Semaphore, DEFAULT_DOWNLOAD_PERMITS, DEFAULT_UPLOAD_PERMITS};
use skydrivex::models::DriveItemSummary;
use skydrivex::download_manager::{DownloadManager, MemoryDownloadStore};
use skydrivex::meters::{DownloadMeters, PersistThrottle, UploadMeters};
use skydrivex::progress::{
    expired_samples, gained, keeps_subscriber, should_persist, should_sample,
    surviving_subscribers, ProgressReader, ProgressTick, RateReading, SendOutcome, PERSIST_BYTES_THRESHOLD,
    PERSIST_INTERVAL_NANOS, PROGRESS_CHANNEL_CAP, SPEED_SAMPLE_MIN_INTERVAL_NANOS,
    SPEED_WINDOW_NANOS, STREAM_BUFFER_BYTES,
};
use skydrivex::sorting::{rank_of, SortKey};
use skydrivex::text::{blank, opt_str_eq, owned};
use skydrivex::upload_manager::{MemoryUploadStore, UploadManager};

#[test]
fn semaphore_hands_out_no_more_than_its_limit() {
    let mut s = Semaphore::new(2);
    assert_eq!(s.max_permits(), 2);
    assert_eq!(s.available(), 2);
    assert!(s.acquire());
    assert!(s.acquire());
    assert!(!s.acquire());
    assert_eq!(s.held_permits(), 2);
    assert_eq!(s.available(), 0);
    s.release();
    assert_eq!(s.available(), 1);
    assert!(s.acquire());
    assert!(!s.acquire());
}

#[test]
fn semaphore_release_without_holder_changes_nothing() {
    let mut s = Semaphore::new(1);
    s.release();
    assert_eq!(s.available(), 1);
    assert_eq!(s.held_permits(), 0);
    assert!(s.acquire());
    assert!(!s.acquire());
}

#[test]
fn semaphore_with_no_permits_grants_nothing() {
    let mut s = Semaphore::new(0);
    assert!(!s.acquire());
}

#[test]
fn raising_the_limit_frees_permits_at_once() {
    let mut s = Semaphore::new(1);
    assert!(s.acquire());
    s.resize(3);
    assert_eq!(s.available(), 2);
    assert!(s.acquire());
    assert!(s.acquire());
    assert!(!s.acquire());
}

#[test]
fn lowering_the_limit_lets_the_excess_drain() {
    let mut s = Semaphore::new(4);
    for _ in 0..4 {
        assert!(s.acquire());
    }
    s.resize(2);
    assert_eq!(s.held_permits(), 4);
    assert_eq!(s.available(), 0);
    s.release();
    s.release();
    assert!(!s.acquire());
    s.release();
    assert!(s.acquire());
    assert_eq!(s.held_permits(), 2);
}

#[test]
fn default_permit_counts() {
    assert_eq!(DEFAULT_DOWNLOAD_PERMITS, 4);
    assert_eq!(DEFAULT_UPLOAD_PERMITS, 2);
    let mut uploads = UploadManager::new_at(MemoryUploadStore::new(), 0);
    assert!(uploads.try_acquire_permit());
    assert!(uploads.try_acquire_permit());
    assert!(!uploads.try_acquire_permit());
    uploads.release_permit();
    assert!(uploads.try_acquire_permit());
    let mut downloads = DownloadManager::new(MemoryDownloadStore::new());
    let granted = (0..9).filter(|_| downloads.try_acquire_permit()).count();
    assert_eq!(granted, 4);
}

#[test]
fn registry_registers_signals_and_clears() {
    let mut r = CancelRegistry::new();
    assert!(!r.is_registered("a"));
    assert!(!r.signal("a"));
    let a = r.register("a");
    let b = r.register("b");
    assert_ne!(a, b);
    assert!(r.is_registered("a"));
    assert_eq!(r.ticket_of("a"), Some(a));
    assert!(!r.must_stop("a", a));
    assert!(r.signal("a"));
    assert!(r.must_stop("a", a));
    assert!(!r.must_stop("b", b));
    r.clear("a");
    assert!(!r.is_registered("a"));
    assert!(r.must_stop("a", a));
    assert_eq!(r.ticket_of("a"), None);
    assert!(r.is_registered("b"));
}

#[test]
fn registry_replaces_the_flag_of_an_id() {
    let mut r = CancelRegistry::new();
    let first = r.register("a");
    r.signal("a");
    let second = r.register("a");
    assert_ne!(first, second);
    assert!(r.must_stop("a", first));
    assert!(!r.must_stop("a", second));
    assert!(r.must_stop("unknown", 0));
}

#[test]
fn reader_counts_bytes_and_never_goes_back() {
    let mut reader = ProgressReader::new(10_000);
    assert_eq!(reader.bytes_sent(), 0);
    assert!(reader.may_read(false));
    assert!(!reader.may_read(true));
    let mut last = 0;
    for n in [4096usize, 0, 4096, 1808] {
        let tick = reader.record(n);
        if n == 0 {
            assert_eq!(tick, None);
        } else {
            let tick = tick.unwrap();
            assert!(tick.bytes_transferred >= last);
            assert_eq!(tick.expected_size, Some(10_000));
            last = tick.bytes_transferred;
        }
    }
    assert_eq!(reader.bytes_sent(), 10_000);
}

#[test]
fn reader_saturates_instead_of_wrapping() {
    let mut reader = ProgressReader::new(1);
    reader.record(usize::MAX);
    let tick = reader.record(usize::MAX).unwrap();
    assert!(tick.bytes_transferred >= usize::MAX as u64);
    assert_eq!(reader.record(usize::MAX), Some(ProgressTick {
        bytes_transferred: reader.bytes_sent(),
        expected_size: Some(1),
    }));
}

#[test]
fn gain_is_zero_when_the_counter_went_back() {
    assert_eq!(gained(10, 4), 6);
    assert_eq!(gained(4, 10), 0);
    assert_eq!(gained(7, 7), 0);
}

#[test]
fn progress_is_stored_after_256_kib_or_one_second() {
    assert_eq!(PERSIST_BYTES_THRESHOLD, 262_144);
    assert_eq!(PERSIST_INTERVAL_NANOS, 1_000_000_000);
    assert!(!should_persist(0, 262_143, 999_999_999));
    assert!(should_persist(0, 262_144, 0));
    assert!(should_persist(1_000, 263_144, 0));
    assert!(should_persist(0, 0, 1_000_000_000));
    assert!(!should_persist(500, 100, 10));
    assert!(should_persist(500, 100, 2_000_000_000));
}

#[test]
fn rate_is_sampled_after_200_ms_of_gain() {
    assert_eq!(SPEED_SAMPLE_MIN_INTERVAL_NANOS, 200_000_000);
    assert!(should_sample(0, 1, 200_000_000));
    assert!(!should_sample(0, 1, 199_999_999));
    assert!(!should_sample(5, 5, 900_000_000));
    assert!(!should_sample(9, 5, 900_000_000));
}

#[test]
fn samples_older_than_five_seconds_leave_the_window() {
    assert_eq!(SPEED_WINDOW_NANOS, 5_000_000_000);
    assert_eq!(expired_samples(&vec![]), 0);
    assert_eq!(expired_samples(&vec![7_000_000_000, 5_000_000_001, 5_000_000_000, 0]), 2);
    assert_eq!(expired_samples(&vec![1, 0]), 0);
    assert_eq!(expired_samples(&vec![6_000_000_000, 6_000_000_000]), 2);
    // Only the leading samples count.
    assert_eq!(expired_samples(&vec![1, 9_000_000_000]), 0);
}

#[test]
fn slow_subscribers_stay_and_gone_ones_are_dropped() {
    assert!(keeps_subscriber(SendOutcome::Delivered));
    assert!(keeps_subscriber(SendOutcome::Full));
    assert!(!keeps_subscriber(SendOutcome::Disconnected));
    let keep = surviving_subscribers(&vec![
        SendOutcome::Full,
        SendOutcome::Disconnected,
        SendOutcome::Delivered,
    ]);
    assert_eq!(keep, vec![true, false, true]);
    assert_eq!(surviving_subscribers(&vec![]), Vec::<bool>::new());
}

#[test]
fn a_consumer_that_never_reads_does_not_hold_the_transfer_up() {
    assert_eq!(PROGRESS_CHANNEL_CAP, 64);
    assert_eq!(STREAM_BUFFER_BYTES, 65_536);
    let (slow_tx, slow_rx) = sync_channel::<u64>(PROGRESS_CHANNEL_CAP);
    let (fast_tx, fast_rx) = sync_channel::<u64>(PROGRESS_CHANNEL_CAP);
    let (gone_tx, gone_rx) = sync_channel::<u64>(PROGRESS_CHANNEL_CAP);
    drop(gone_rx);
    let mut subscribers = vec![slow_tx, fast_tx, gone_tx];
    let mut m = UploadManager::new_at(MemoryUploadStore::new(), 0);
    m.enqueue_task("t".to_string(), None, "f".to_string(), "/f".to_string(), 1_000, 1).unwrap();
    let mut seen_by_fast = Vec::new();
    for tick in 1..=1_000u64 {
        let update = m.report_progress("t", tick, None).unwrap();
        let outcomes: Vec<SendOutcome> = subscribers
            .iter()
            .map(|tx| match tx.try_send(update.bytes_uploaded) {
                Ok(()) => SendOutcome::Delivered,
                Err(TrySendError::Full(_)) => SendOutcome::Full,
                Err(TrySendError::Disconnected(_)) => SendOutcome::Disconnected,
            })
            .collect();
        let keep = surviving_subscribers(&outcomes);
        let mut at = 0;
        subscribers.retain(|_| {
            at += 1;
            keep[at - 1]
        });
        while let Ok(bytes) = fast_rx.try_recv() {
            seen_by_fast.push(bytes);
        }
    }
    m.complete_at("t", Ok("r".to_string()), 5);
    assert_eq!(subscribers.len(), 2);
    assert_eq!(seen_by_fast.len(), 1_000);
    assert!(seen_by_fast.windows(2).all(|w| w[0] <= w[1]));
    let queued: Vec<u64> = slow_rx.try_iter().collect();
    assert_eq!(queued.len(), PROGRESS_CHANNEL_CAP);
    assert_eq!(queued[0], 1);
    let state = m.snapshot();
    assert_eq!(state.completed.len(), 1);
    assert_eq!(state.completed[0].bytes_uploaded, Some(1_000));
}

#[test]
fn upload_subscriber_gets_one_event_per_running_task() {
    let mut m = UploadManager::new_at(MemoryUploadStore::new(), 0);
    m.enqueue_task("a".to_string(), None, "a".to_string(), "/a".to_string(), 10, 1).unwrap();
    m.enqueue_task("b".to_string(), None, "b".to_string(), "/b".to_string(), 20, 2).unwrap();
    m.report_progress("b", 5, None);
    let burst = m.subscribe_progress();
    assert_eq!(burst.len(), 2);
    assert_eq!((burst[0].task_id.as_str(), burst[0].bytes_uploaded), ("a", 0));
    assert_eq!((burst[1].task_id.as_str(), burst[1].bytes_uploaded), ("b", 5));
    assert_eq!(burst[1].expected_size, Some(20));
}

#[test]
fn ranks_order_by_start_and_by_completion() {
    assert!(rank_of(SortKey::Started, 1, None) < rank_of(SortKey::Started, 2, Some(0)));
    assert!(rank_of(SortKey::Finished, 0, Some(9)) < rank_of(SortKey::Finished, 0, Some(3)));
    assert!(rank_of(SortKey::Finished, 0, Some(i64::MIN)) < rank_of(SortKey::Finished, 0, None));
    assert_eq!(rank_of(SortKey::Finished, 5, Some(7)), -7);
}

#[test]
fn blank_means_white_space_only() {
    assert!(blank(""));
    assert!(blank(" \t\r\n"));
    assert!(blank("\u{3000}\u{a0}"));
    assert!(!blank(" a "));
    assert!(!blank("_"));
}

#[test]
fn optional_texts_compare_by_content() {
    assert!(opt_str_eq(&None, &None));
    assert!(opt_str_eq(&Some("a".to_string()), &Some(owned("a"))));
    assert!(!opt_str_eq(&Some("a".to_string()), &Some("b".to_string())));
    assert!(!opt_str_eq(&Some("a".to_string()), &None));
    assert!(!opt_str_eq(&None, &Some(String::new())));
}

#[test]
fn item_summaries_can_be_cloned() {
    let item = DriveItemSummary {
        id: "i".to_string(),
        name: "n".to_string(),
        size: Some(1),
        is_folder: true,
        child_count: Some(2),
        mime_type: None,
        last_modified: Some("t".to_string()),
        thumbnail_url: None,
    };
    assert_eq!(item.clone(), item);
}

#[test]
fn throttle_remembers_what_was_stored() {
    let mut throttle = PersistThrottle::new();
    // The first tick of a transfer is stored, whatever the time.
    assert!(throttle.should_persist_progress("a", 10, 5_000));
    assert!(!throttle.should_persist_progress("a", 20, 5_000 + 999_999_999));
    assert!(throttle.should_persist_progress("a", 20, 5_000 + 1_000_000_000));
    // Measured from the tick stored last, not from the tick seen last.
    let stored_at = 5_000 + 1_000_000_000;
    assert!(!throttle.should_persist_progress("a", 20 + 262_143, stored_at + 1));
    assert!(!throttle.should_persist_progress("a", 21, stored_at + 999_999_999));
    assert!(throttle.should_persist_progress("a", 20 + 262_144, stored_at + 2));
    // A clock that went back counts as no time passed.
    assert!(!throttle.should_persist_progress("a", 20 + 262_144, 0));
    assert!(throttle.should_persist_progress("b", 0, 7));
    throttle.forget("a");
    assert!(throttle.should_persist_progress("a", 1, 8));
    throttle.retain_only(&vec!["b".to_string()]);
    assert!(throttle.should_persist_progress("a", 2, 9));
    assert!(!throttle.should_persist_progress("b", 1, 9));
}

#[test]
fn download_meter_measures_the_gain_between_readings() {
    let mut meters = DownloadMeters::new();
    assert!(meters.compute_speed("a", 100, 1_000).is_none());
    let sample = meters.compute_speed("a", 350, 3_000).unwrap();
    assert_eq!(sample.delta_bytes, 250);
    assert_eq!(sample.elapsed_nanos, 2_000);
    // No gain, a counter that went back, no time passed: no rate.
    assert!(meters.compute_speed("a", 350, 4_000).is_none());
    assert!(meters.compute_speed("a", 10, 5_000).is_none());
    assert!(meters.compute_speed("a", 20, 5_000).is_none());
    // Every reading takes the place of the one before.
    let sample = meters.compute_speed("a", 50, 5_500).unwrap();
    assert_eq!((sample.delta_bytes, sample.elapsed_nanos), (30, 500));
    assert!(meters.compute_speed("b", 1, 6_000).is_none());
    meters.forget("a");
    assert!(meters.compute_speed("a", 999, 7_000).is_none());
    meters.retain_only(&vec!["b".to_string()]);
    assert!(meters.compute_speed("a", 2_000, 8_000).is_none());
    assert_eq!(meters.compute_speed("b", 3, 8_000).unwrap().delta_bytes, 2);
}

#[test]
fn upload_meter_samples_after_200_ms_of_gain() {
    let ms: u128 = 1_000_000;
    let mut meters = UploadMeters::new();
    assert!(matches!(meters.compute_speed("a", 0, 0), RateReading::Unchanged));
    // Too soon after the first reading.
    assert!(matches!(meters.compute_speed("a", 500, 199 * ms), RateReading::Unchanged));
    // Time has passed but nothing was gained.
    assert!(matches!(meters.compute_speed("a", 0, 210 * ms), RateReading::Unchanged));
    match meters.compute_speed("a", 4_000, 210 * ms) {
        RateReading::Sampled { instant, window } => {
            assert_eq!((instant.delta_bytes, instant.elapsed_nanos), (4_000, 210 * ms));
            let window = window.unwrap();
            assert_eq!((window.delta_bytes, window.elapsed_nanos), (4_000, 210 * ms));
        }
        RateReading::Unchanged => panic!("a sample was due"),
    }
    // Measured from the last sample.
    assert!(matches!(meters.compute_speed("a", 5_000, 409 * ms), RateReading::Unchanged));
    match meters.compute_speed("a", 5_000, 410 * ms) {
        RateReading::Sampled { instant, window } => {
            assert_eq!((instant.delta_bytes, instant.elapsed_nanos), (1_000, 200 * ms));
            let window = window.unwrap();
            assert_eq!((window.delta_bytes, window.elapsed_nanos), (5_000, 410 * ms));
        }
        RateReading::Unchanged => panic!("a sample was due"),
    }
    meters.forget("a");
    assert!(matches!(meters.compute_speed("a", 9_000, 900 * ms), RateReading::Unchanged));
    meters.retain_only(&vec![]);
    assert!(matches!(meters.compute_speed("a", 9_500, 2_000 * ms), RateReading::Unchanged));
}

#[test]
fn upload_meter_drops_the_samples_that_left_the_window() {
    let ms: u128 = 1_000_000;
    let mut meters = UploadMeters::new();
    assert!(matches!(meters.compute_speed("a", 0, 0), RateReading::Unchanged));
    assert!(matches!(meters.compute_speed("a", 100, 1_000 * ms), RateReading::Sampled { .. }));
    assert!(matches!(meters.compute_speed("a", 300, 4_000 * ms), RateReading::Sampled { .. }));
    // At five seconds the first sample is still within the window.
    match meters.compute_speed("a", 600, 5_000 * ms) {
        RateReading::Sampled { instant, window } => {
            assert_eq!((instant.delta_bytes, instant.elapsed_nanos), (300, 1_000 * ms));
            let window = window.unwrap();
            assert_eq!((window.delta_bytes, window.elapsed_nanos), (600, 5_000 * ms));
        }
        RateReading::Unchanged => panic!("a sample was due"),
    }
    // At seven seconds the samples taken at zero and at one second are gone.
    match meters.compute_speed("a", 1_000, 7_000 * ms) {
        RateReading::Sampled { instant, window } => {
            assert_eq!((instant.delta_bytes, instant.elapsed_nanos), (400, 2_000 * ms));
            let window = window.unwrap();
            assert_eq!((window.delta_bytes, window.elapsed_nanos), (700, 3_000 * ms));
        }
        RateReading::Unchanged => panic!("a sample was due"),
    }
    // Much later only the new sample is left, and the window spans no time.
    match meters.compute_speed("a", 1_001, 100_000 * ms) {
        RateReading::Sampled { instant, window } => {
            assert_eq!(instant.delta_bytes, 1);
            assert!(window.is_none());
        }
        RateReading::Unchanged => panic!("a sample was due"),
    }
}
