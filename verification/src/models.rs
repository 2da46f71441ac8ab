//! Plain data shared by the transfer queues: remote item summaries, task
//! records and queue snapshots, each with the mathematical view that the
//! contracts of this crate speak about.

use vstd::prelude::*;

pub use crate::api::drive::details::DriveItemDetails;
pub use crate::api::drive::info::{DriveInfo, DriveOwner, DriveQuota};
use crate::text::opt_view;

verus! {

/// Summary of a remote file or folder.
#[derive(Debug, PartialEq, Eq)]
pub struct DriveItemSummary {
    pub id: String,
    pub name: String,
    pub size: Option<u64>,
    pub is_folder: bool,
    pub child_count: Option<i64>,
    pub mime_type: Option<String>,
    pub last_modified: Option<String>,
    pub thumbnail_url: Option<String>,
}

/// Mathematical view of a [`DriveItemSummary`].
pub ghost struct DriveItemSummaryView {
    pub id: Seq<char>,
    pub name: Seq<char>,
    pub size: Option<u64>,
    pub is_folder: bool,
    pub child_count: Option<i64>,
    pub mime_type: Option<Seq<char>>,
    pub last_modified: Option<Seq<char>>,
    pub thumbnail_url: Option<Seq<char>>,
}

impl View for DriveItemSummary {
    type V = DriveItemSummaryView;

    open spec fn view(&self) -> DriveItemSummaryView {
        DriveItemSummaryView {
            id: self.id@,
            name: self.name@,
            size: self.size,
            is_folder: self.is_folder,
            child_count: self.child_count,
            mime_type: opt_view(self.mime_type),
            last_modified: opt_view(self.last_modified),
            thumbnail_url: opt_view(self.thumbnail_url),
        }
    }
}

impl DeepView for DriveItemSummary {
    type V = DriveItemSummaryView;

    open spec fn deep_view(&self) -> DriveItemSummaryView {
        self@
    }
}

impl Clone for DriveItemSummary {
    fn clone(&self) -> (r: Self)
        ensures
            r == *self,
    {
        DriveItemSummary {
            id: self.id.clone(),
            name: self.name.clone(),
            size: self.size,
            is_folder: self.is_folder,
            child_count: self.child_count,
            mime_type: self.mime_type.clone(),
            last_modified: self.last_modified.clone(),
            thumbnail_url: self.thumbnail_url.clone(),
        }
    }
}

/// One page of a folder listing.
#[derive(Debug, PartialEq, Eq)]
pub struct DrivePage {
    pub items: Vec<DriveItemSummary>,
    pub next_link: Option<String>,
}

impl Clone for DrivePage {
    fn clone(&self) -> (r: Self)
        ensures
            r.items.deep_view() == self.items.deep_view(),
            opt_view(r.next_link) == opt_view(self.next_link),
    {
        DrivePage { items: self.items.clone(), next_link: self.next_link.clone() }
    }
}

/// What a finished download reports.
#[derive(Debug, PartialEq, Eq)]
pub struct DriveDownloadResult {
    pub file_name: String,
    pub saved_path: String,
    pub bytes_downloaded: u64,
    pub expected_size: Option<u64>,
}

impl Clone for DriveDownloadResult {
    fn clone(&self) -> (r: Self)
        ensures
            r == *self,
    {
        DriveDownloadResult {
            file_name: self.file_name.clone(),
            saved_path: self.saved_path.clone(),
            bytes_downloaded: self.bytes_downloaded,
            expected_size: self.expected_size,
        }
    }
}

/// Lifecycle state of a download.
#[derive(Clone, Copy, Debug, PartialEq, Eq, Structural)]
pub enum DownloadStatus {
    InProgress,
    Completed,
    Failed,
}

/// Lifecycle state of an upload.
#[derive(Clone, Copy, Debug, PartialEq, Eq, Structural)]
pub enum UploadStatus {
    InProgress,
    Completed,
    Failed,
    Cancelled,
}

/// One download with its lifecycle record.
#[derive(Debug, PartialEq, Eq)]
pub struct DownloadTask {
    pub item: DriveItemSummary,
    pub status: DownloadStatus,
    pub started_at: i64,
    pub completed_at: Option<i64>,
    pub saved_path: Option<String>,
    pub size_label: Option<u64>,
    pub bytes_downloaded: Option<u64>,
    pub error_message: Option<String>,
}

/// Mathematical view of a [`DownloadTask`].
pub ghost struct DownloadTaskView {
    pub item: DriveItemSummaryView,
    pub status: DownloadStatus,
    pub started_at: i64,
    pub completed_at: Option<i64>,
    pub saved_path: Option<Seq<char>>,
    pub size_label: Option<u64>,
    pub bytes_downloaded: Option<u64>,
    pub error_message: Option<Seq<char>>,
}

impl View for DownloadTask {
    type V = DownloadTaskView;

    open spec fn view(&self) -> DownloadTaskView {
        DownloadTaskView {
            item: self.item@,
            status: self.status,
            started_at: self.started_at,
            completed_at: self.completed_at,
            saved_path: opt_view(self.saved_path),
            size_label: self.size_label,
            bytes_downloaded: self.bytes_downloaded,
            error_message: opt_view(self.error_message),
        }
    }
}

impl DeepView for DownloadTask {
    type V = DownloadTaskView;

    open spec fn deep_view(&self) -> DownloadTaskView {
        self@
    }
}

impl Clone for DownloadTask {
    fn clone(&self) -> (r: Self)
        ensures
            r == *self,
    {
        DownloadTask {
            item: self.item.clone(),
            status: self.status,
            started_at: self.started_at,
            completed_at: self.completed_at,
            saved_path: self.saved_path.clone(),
            size_label: self.size_label,
            bytes_downloaded: self.bytes_downloaded,
            error_message: self.error_message.clone(),
        }
    }
}

/// One upload with its lifecycle record.
#[derive(Debug, PartialEq, Eq)]
pub struct UploadTask {
    pub task_id: String,
    pub file_name: String,
    pub local_path: String,
    pub size: Option<u64>,
    pub mime_type: Option<String>,
    pub parent_id: Option<String>,
    pub remote_id: Option<String>,
    pub status: UploadStatus,
    pub started_at: i64,
    pub completed_at: Option<i64>,
    pub bytes_uploaded: Option<u64>,
    pub error_message: Option<String>,
    pub session_url: Option<String>,
}

/// Mathematical view of an [`UploadTask`].
pub ghost struct UploadTaskView {
    pub task_id: Seq<char>,
    pub file_name: Seq<char>,
    pub local_path: Seq<char>,
    pub size: Option<u64>,
    pub mime_type: Option<Seq<char>>,
    pub parent_id: Option<Seq<char>>,
    pub remote_id: Option<Seq<char>>,
    pub status: UploadStatus,
    pub started_at: i64,
    pub completed_at: Option<i64>,
    pub bytes_uploaded: Option<u64>,
    pub error_message: Option<Seq<char>>,
    pub session_url: Option<Seq<char>>,
}

impl View for UploadTask {
    type V = UploadTaskView;

    open spec fn view(&self) -> UploadTaskView {
        UploadTaskView {
            task_id: self.task_id@,
            file_name: self.file_name@,
            local_path: self.local_path@,
            size: self.size,
            mime_type: opt_view(self.mime_type),
            parent_id: opt_view(self.parent_id),
            remote_id: opt_view(self.remote_id),
            status: self.status,
            started_at: self.started_at,
            completed_at: self.completed_at,
            bytes_uploaded: self.bytes_uploaded,
            error_message: opt_view(self.error_message),
            session_url: opt_view(self.session_url),
        }
    }
}

impl DeepView for UploadTask {
    type V = UploadTaskView;

    open spec fn deep_view(&self) -> UploadTaskView {
        self@
    }
}

impl Clone for UploadTask {
    fn clone(&self) -> (r: Self)
        ensures
            r == *self,
    {
        UploadTask {
            task_id: self.task_id.clone(),
            file_name: self.file_name.clone(),
            local_path: self.local_path.clone(),
            size: self.size,
            mime_type: self.mime_type.clone(),
            parent_id: self.parent_id.clone(),
            remote_id: self.remote_id.clone(),
            status: self.status,
            started_at: self.started_at,
            completed_at: self.completed_at,
            bytes_uploaded: self.bytes_uploaded,
            error_message: self.error_message.clone(),
            session_url: self.session_url.clone(),
        }
    }
}

/// The three ordered sequences of a queue, as mathematical sequences.
pub ghost struct QueueView<T> {
    pub active: Seq<T>,
    pub completed: Seq<T>,
    pub failed: Seq<T>,
}

impl<T> QueueView<T> {
    /// The queue that holds no task.
    pub open spec fn empty() -> QueueView<T> {
        QueueView { active: Seq::empty(), completed: Seq::empty(), failed: Seq::empty() }
    }
}

/// Snapshot of the download queue: running tasks oldest first, finished and
/// failed ones most recent first.
#[derive(Debug, PartialEq, Eq)]
pub struct DownloadQueueState {
    pub active: Vec<DownloadTask>,
    pub completed: Vec<DownloadTask>,
    pub failed: Vec<DownloadTask>,
}

impl View for DownloadQueueState {
    type V = QueueView<DownloadTaskView>;

    open spec fn view(&self) -> QueueView<DownloadTaskView> {
        QueueView {
            active: self.active.deep_view(),
            completed: self.completed.deep_view(),
            failed: self.failed.deep_view(),
        }
    }
}

impl Clone for DownloadQueueState {
    fn clone(&self) -> (r: Self)
        ensures
            r@ == self@,
    {
        DownloadQueueState {
            active: self.active.clone(),
            completed: self.completed.clone(),
            failed: self.failed.clone(),
        }
    }
}

impl Default for DownloadQueueState {
    fn default() -> (r: Self)
        ensures
            r@ == QueueView::<DownloadTaskView>::empty(),
    {
        let r =
            DownloadQueueState { active: Vec::new(), completed: Vec::new(), failed: Vec::new() };
        assert(r@.active =~= Seq::empty());
        assert(r@.completed =~= Seq::empty());
        assert(r@.failed =~= Seq::empty());
        r
    }
}

/// Snapshot of the upload queue. Cancelled uploads are listed among the
/// failed ones and told apart by their status.
#[derive(Debug, PartialEq, Eq)]
pub struct UploadQueueState {
    pub active: Vec<UploadTask>,
    pub completed: Vec<UploadTask>,
    pub failed: Vec<UploadTask>,
}

impl View for UploadQueueState {
    type V = QueueView<UploadTaskView>;

    open spec fn view(&self) -> QueueView<UploadTaskView> {
        QueueView {
            active: self.active.deep_view(),
            completed: self.completed.deep_view(),
            failed: self.failed.deep_view(),
        }
    }
}

impl Clone for UploadQueueState {
    fn clone(&self) -> (r: Self)
        ensures
            r@ == self@,
    {
        UploadQueueState {
            active: self.active.clone(),
            completed: self.completed.clone(),
            failed: self.failed.clone(),
        }
    }
}

impl Default for UploadQueueState {
    fn default() -> (r: Self)
        ensures
            r@ == QueueView::<UploadTaskView>::empty(),
    {
        let r = UploadQueueState { active: Vec::new(), completed: Vec::new(), failed: Vec::new() };
        assert(r@.active =~= Seq::empty());
        assert(r@.completed =~= Seq::empty());
        assert(r@.failed =~= Seq::empty());
        r
    }
}

} // verus!
