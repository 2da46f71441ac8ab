pub mod download_concurrency;
pub mod download_directory;

pub use download_concurrency::{
    default_download_concurrency, get_download_concurrency, set_download_concurrency,
    MAX_DOWNLOAD_CONCURRENCY, MIN_DOWNLOAD_CONCURRENCY,
};
pub use download_directory::{get_download_directory, set_download_directory};
