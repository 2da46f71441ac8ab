//! The engine of a desktop drive client: two persistent transfer queues,
//! one for downloads and one for uploads, with the rules that surround
//! them.
//!
//! Everything here computes and nothing here performs input or output: the
//! caller reads files, talks to the remote side and to the database, and
//! hands the library what it found. The contracts of the public functions
//! state what each of them returns and changes, and the public proof
//! functions state what holds of the queues whatever is done with them.
//!
//! - [`download_manager`] and [`upload_manager`]: the queues, their
//!   managers, the stores behind them and the chunked upload.
//! - [`queue_model`], [`task_sets`] and [`sorting`]: the mathematics that
//!   both queues share.
//! - [`cancel`], [`limiter`] and [`progress`]: stop flags, permits and
//!   progress metering.
//! - [`settings`], [`db`] and [`api`]: settings, stored rows, and the
//!   requests to the remote side and what its answers mean.

pub mod api;
pub mod cancel;
pub mod clock;
pub mod db;
pub mod download_manager;
pub mod errors;
pub mod limiter;
pub mod meters;
pub mod models;
pub mod progress;
pub mod queue_model;
pub mod settings;
pub mod sorting;
pub mod task_sets;
pub mod text;
pub mod upload_manager;
