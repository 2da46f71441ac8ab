use skydrivex::db::{
    add_column_sql, build_record, build_record_at, ensure_column, opt_i64_to_u64, opt_u64_to_i64,
    SqlFailure, DOWNLOAD_TABLE_SCHEMA, SETTINGS_TABLE_SCHEMA, UPLOAD_TABLE_SCHEMA,
};
use skydrivex::download_manager::storage as download_rows;
use skydrivex::models::{
    DownloadStatus, DownloadTask, DriveItemSummary, UploadStatus, UploadTask,
};
use skydrivex::settings::download_concurrency::parse_and_clamp;
use skydrivex::settings::{
    default_download_concurrency, get_download_concurrency, get_download_directory,
    set_download_concurrency, set_download_directory, MAX_DOWNLOAD_CONCURRENCY,
    MIN_DOWNLOAD_CONCURRENCY,
};
use skydrivex::upload_manager::storage as upload_rows;

#[test]
fn concurrency_defaults_to_four() {
    assert_eq!(default_download_concurrency(), 4);
    assert_eq!(get_download_concurrency(None), Ok(4));
    assert_eq!((MIN_DOWNLOAD_CONCURRENCY, MAX_DOWNLOAD_CONCURRENCY), (1, 8));
}

#[test]
fn stored_concurrency_is_clamped() {
    assert_eq!(get_download_concurrency(Some("3".to_string())), Ok(3));
    assert_eq!(get_download_concurrency(Some("0".to_string())), Ok(1));
    assert_eq!(get_download_concurrency(Some("9".to_string())), Ok(8));
    assert_eq!(get_download_concurrency(Some("+8".to_string())), Ok(8));
    assert_eq!(parse_and_clamp("1000000"), Ok(8));
    assert_eq!(parse_and_clamp("1"), Ok(1));
}

#[test]
fn stored_concurrency_that_is_no_number_is_an_error() {
    for raw in ["", "four", " 4", "4 ", "-1", "4.0", "99999999999999999999999999"] {
        let e = parse_and_clamp(raw).unwrap_err();
        assert!(e.starts_with("invalid download concurrency value: "), "{raw}: {e}");
        assert!(e.len() > "invalid download concurrency value: ".len());
    }
}

#[test]
fn concurrency_outside_the_range_is_refused() {
    assert_eq!(set_download_concurrency(1), Ok(1));
    assert_eq!(set_download_concurrency(8), Ok(8));
    assert_eq!(
        set_download_concurrency(0),
        Err("download concurrency must be between 1 and 8".to_string())
    );
    assert_eq!(
        set_download_concurrency(9),
        Err("download concurrency must be between 1 and 8".to_string())
    );
}

#[test]
fn download_directory_falls_back_to_the_default() {
    assert_eq!(
        get_download_directory(Some("/a".to_string()), Some("/b".to_string())),
        Ok("/a".to_string())
    );
    assert_eq!(get_download_directory(None, Some("/b".to_string())), Ok("/b".to_string()));
    assert_eq!(
        get_download_directory(None, None),
        Err("failed to resolve default download directory".to_string())
    );
}

#[test]
fn blank_download_directory_is_refused() {
    assert_eq!(set_download_directory("/x".to_string()), Ok("/x".to_string()));
    assert_eq!(
        set_download_directory("  ".to_string()),
        Err("download directory cannot be empty".to_string())
    );
    assert_eq!(
        skydrivex::download_manager::set_download_directory(String::new()),
        Err("download directory cannot be empty".to_string())
    );
}

#[test]
fn sizes_cross_the_store_within_the_signed_range() {
    assert_eq!(opt_u64_to_i64(None), None);
    assert_eq!(opt_u64_to_i64(Some(0)), Some(0));
    assert_eq!(opt_u64_to_i64(Some(i64::MAX as u64)), Some(i64::MAX));
    assert_eq!(opt_u64_to_i64(Some(i64::MAX as u64 + 1)), None);
    assert_eq!(opt_i64_to_u64(None), None);
    assert_eq!(opt_i64_to_u64(Some(-1)), None);
    assert_eq!(opt_i64_to_u64(Some(0)), Some(0));
    assert_eq!(opt_i64_to_u64(Some(i64::MAX)), Some(i64::MAX as u64));
}

#[test]
fn status_codes_are_stable() {
    assert_eq!(upload_rows::status_to_i64(&UploadStatus::InProgress), 0);
    assert_eq!(upload_rows::status_to_i64(&UploadStatus::Completed), 1);
    assert_eq!(upload_rows::status_to_i64(&UploadStatus::Failed), 2);
    assert_eq!(upload_rows::status_to_i64(&UploadStatus::Cancelled), 3);
    assert_eq!(upload_rows::status_from_i64(3), UploadStatus::Cancelled);
    assert_eq!(upload_rows::status_from_i64(4), UploadStatus::InProgress);
    assert_eq!(upload_rows::status_from_i64(-1), UploadStatus::InProgress);
    assert_eq!(download_rows::status_to_i64(&DownloadStatus::InProgress), 0);
    assert_eq!(download_rows::status_to_i64(&DownloadStatus::Completed), 1);
    assert_eq!(download_rows::status_to_i64(&DownloadStatus::Failed), 2);
    assert_eq!(download_rows::status_from_i64(1), DownloadStatus::Completed);
    assert_eq!(download_rows::status_from_i64(2), DownloadStatus::Failed);
    assert_eq!(download_rows::status_from_i64(3), DownloadStatus::InProgress);
}

#[test]
fn upload_task_survives_its_row() {
    let task = UploadTask {
        task_id: "t".to_string(),
        file_name: "f".to_string(),
        local_path: "/f".to_string(),
        size: Some(9),
        mime_type: Some("m".to_string()),
        parent_id: Some("p".to_string()),
        remote_id: None,
        status: UploadStatus::Cancelled,
        started_at: 1,
        completed_at: Some(2),
        bytes_uploaded: Some(4),
        error_message: Some("upload cancelled".to_string()),
        session_url: Some("https://s".to_string()),
    };
    let row = upload_rows::record_from_task_at(&task, 77);
    assert_eq!(row.updated_at_millis, 77);
    assert_eq!(row.status, 3);
    assert_eq!(row.size, Some(9));
    assert_eq!(upload_rows::task_from_record(row), task);
    let row = upload_rows::record_from_task(&task);
    assert!(row.updated_at_millis > 1_577_836_800_000);
}

#[test]
fn oversized_and_negative_sizes_are_read_as_absent() {
    let mut task = UploadTask {
        task_id: "t".to_string(),
        file_name: "f".to_string(),
        local_path: "/f".to_string(),
        size: Some(u64::MAX),
        mime_type: None,
        parent_id: None,
        remote_id: None,
        status: UploadStatus::InProgress,
        started_at: 1,
        completed_at: None,
        bytes_uploaded: Some(1),
        error_message: None,
        session_url: None,
    };
    let mut row = upload_rows::record_from_task_at(&task, 0);
    assert_eq!(row.size, None);
    row.bytes_uploaded = Some(-5);
    let back = upload_rows::task_from_record(row);
    task.size = None;
    task.bytes_uploaded = None;
    assert_eq!(back, task);
}

#[test]
fn download_task_survives_its_row() {
    let task = DownloadTask {
        item: DriveItemSummary {
            id: "i".to_string(),
            name: "n".to_string(),
            size: Some(5),
            is_folder: false,
            child_count: Some(-1),
            mime_type: None,
            last_modified: Some("2024".to_string()),
            thumbnail_url: Some("https://t".to_string()),
        },
        status: DownloadStatus::Completed,
        started_at: -3,
        completed_at: Some(8),
        saved_path: Some("/dl/n".to_string()),
        size_label: Some(5),
        bytes_downloaded: Some(5),
        error_message: None,
    };
    let row = download_rows::record_from_task_at(&task, 1);
    assert_eq!(row.item_id, "i");
    assert_eq!(row.status, 1);
    assert_eq!(row.bytes_downloaded, Some(5));
    assert_eq!(download_rows::task_from_record(row.clone()), task);
    assert_eq!(row.clone(), row);
    assert!(download_rows::record_from_task(&task).updated_at_millis > 0);
}

#[test]
fn credential_row_is_built_from_its_parts() {
    let row = build_record_at(
        "app".to_string(),
        "token".to_string(),
        Some("refresh".to_string()),
        Some(3600),
        None,
        Some("a b".to_string()),
        Some("Bearer".to_string()),
        42,
    );
    assert_eq!(row.client_id, "app");
    assert_eq!(row.access_token, "token");
    assert_eq!(row.refresh_token.as_deref(), Some("refresh"));
    assert_eq!(row.expires_in_seconds, Some(3600));
    assert_eq!(row.id_token, None);
    assert_eq!(row.scope.as_deref(), Some("a b"));
    assert_eq!(row.token_type.as_deref(), Some("Bearer"));
    assert_eq!(row.updated_at_millis, 42);
    let row = build_record("a".to_string(), "t".to_string(), None, Some(u64::MAX), None, None, None);
    assert_eq!(row.expires_in_seconds, None);
    assert!(row.updated_at_millis > 1_577_836_800_000);
}

#[test]
fn adding_a_column_twice_is_no_failure() {
    assert_eq!(
        add_column_sql("download_tasks", "bytes_downloaded", "INTEGER"),
        "ALTER TABLE download_tasks ADD COLUMN bytes_downloaded INTEGER"
    );
    assert_eq!(ensure_column(Ok(()), "t", "c"), Ok(()));
    let duplicate = SqlFailure {
        message: Some("duplicate column name: bytes_downloaded".to_string()),
        shown: "duplicate column name: bytes_downloaded".to_string(),
    };
    assert_eq!(ensure_column(Err(duplicate), "t", "c"), Ok(()));
    let other = SqlFailure { message: Some("no such table: t".to_string()), shown: "boom".to_string() };
    assert_eq!(
        ensure_column(Err(other), "t", "c"),
        Err("failed to add column c on t: boom".to_string())
    );
    let silent = SqlFailure { message: None, shown: "duplicate column name".to_string() };
    assert_eq!(
        ensure_column(Err(silent), "t", "c"),
        Err("failed to add column c on t: duplicate column name".to_string())
    );
}

#[test]
fn schema_names_the_tables() {
    assert!(DOWNLOAD_TABLE_SCHEMA.contains("CREATE TABLE IF NOT EXISTS download_tasks"));
    assert!(UPLOAD_TABLE_SCHEMA.contains("session_url TEXT"));
    assert!(SETTINGS_TABLE_SCHEMA.contains("key TEXT PRIMARY KEY"));
}
