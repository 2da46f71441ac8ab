pub mod chunked;
pub mod laws;
pub mod manager;
pub mod queue;
pub mod restore;
pub mod state;
pub mod storage;

pub use manager::{
    cancel_upload_task, clear_failed_upload_tasks, clear_upload_history,
    enqueue_large_upload_task, enqueue_upload_task, remove_upload_task, upload_queue_state,
    UploadManager, UploadProgressUpdate,
};
pub use storage::{MemoryUploadStore, UploadStore};
