pub mod laws;
pub mod manager;
pub mod queue;
pub mod restore;
pub mod state;
pub mod storage;

pub use crate::settings::download_directory::{get_download_directory, set_download_directory};
pub use manager::{
    cancel_download_task, clear_download_history, clear_failed_download_tasks,
    download_queue_state, enqueue_download_task, remove_download_task, DownloadManager,
    DownloadProgressUpdate,
};
pub use storage::{DownloadStore, MemoryDownloadStore};
